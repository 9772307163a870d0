use vstd::prelude::*;
use crate::types::lang_type::AstNode;

verus! {

/// A variable, as a reference or as the target of a binding.
#[derive(Debug, PartialEq)]
pub struct VarType {
    pub name: String,
}

impl View for VarType {
    type V = AstNode;

    open spec fn view(&self) -> AstNode {
        AstNode::Var { name: self.name@ }
    }
}

impl Default for VarType {
    fn default() -> (r: Self)
        ensures
            r@ == (AstNode::Var { name: Seq::<char>::empty() }),
    {
        Self { name: String::new() }
    }
}

impl VarType {
    pub fn new(name: String) -> (r: Self)
        ensures
            r.name == name,
            r@ == (AstNode::Var { name: name@ }),
    {
        Self { name }
    }
}

impl Clone for VarType {
    fn clone(&self) -> (r: Self)
        ensures
            r == *self,
    {
        Self { name: self.name.clone() }
    }
}

} // verus!
