use vstd::prelude::*;
use crate::types::lang_type::{AstNode, LangType, copy_nodes, nodes_view};

verus! {

/// A call of a named function with its arguments in order.
#[derive(Debug, PartialEq)]
pub struct CallType {
    pub name: String,
    pub param: Vec<LangType>,
}

impl View for CallType {
    type V = AstNode;

    open spec fn view(&self) -> AstNode {
        AstNode::Call { name: self.name@, args: nodes_view(self.param@) }
    }
}

impl Default for CallType {
    fn default() -> (r: Self)
        ensures
            r@ == (AstNode::Call { name: Seq::<char>::empty(), args: Seq::<AstNode>::empty() }),
    {
        let r = Self { name: String::new(), param: Vec::new() };
        assert(nodes_view(r.param@) =~= Seq::<AstNode>::empty());
        r
    }
}

impl CallType {
    pub fn new(name: String, param: Vec<LangType>) -> (r: Self)
        ensures
            r.name == name,
            r.param == param,
            r@ == (AstNode::Call { name: name@, args: nodes_view(param@) }),
    {
        Self { name, param }
    }
}

impl Clone for CallType {
    fn clone(&self) -> (r: Self)
        ensures
            r@ == self@,
    {
        Self { name: self.name.clone(), param: copy_nodes(&self.param) }
    }
}

} // verus!
