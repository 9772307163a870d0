use vstd::prelude::*;
use crate::types::lang_type::AstNode;

verus! {

/// A named immutable binding.
#[derive(Debug, PartialEq)]
pub struct ConstType {
    pub name: String,
    pub value: String,
}

impl View for ConstType {
    type V = AstNode;

    open spec fn view(&self) -> AstNode {
        AstNode::Const { name: self.name@, value: self.value@ }
    }
}

impl Default for ConstType {
    fn default() -> (r: Self)
        ensures
            r@ == (AstNode::Const { name: Seq::<char>::empty(), value: Seq::<char>::empty() }),
    {
        Self { name: String::new(), value: String::new() }
    }
}

impl ConstType {
    pub fn new(name: String, value: String) -> (r: Self)
        ensures
            r.name == name,
            r.value == value,
            r@ == (AstNode::Const { name: name@, value: value@ }),
    {
        Self { name, value }
    }
}

impl Clone for ConstType {
    fn clone(&self) -> (r: Self)
        ensures
            r == *self,
    {
        Self { name: self.name.clone(), value: self.value.clone() }
    }
}

} // verus!
