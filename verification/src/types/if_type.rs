use vstd::prelude::*;
use crate::types::lang_type::{AstNode, LangType, copy_node, copy_nodes, node_view, nodes_view};

verus! {

/// A conditional with its two bodies; `else_body` is empty where the
/// source has no else-clause.
#[derive(Debug, PartialEq)]
pub struct IfType {
    pub condition: Box<LangType>,
    pub body: Vec<LangType>,
    pub else_body: Vec<LangType>,
}

impl View for IfType {
    type V = AstNode;

    open spec fn view(&self) -> AstNode {
        AstNode::If {
            condition: Box::new(node_view(*self.condition)),
            body: nodes_view(self.body@),
            else_body: nodes_view(self.else_body@),
        }
    }
}

impl Default for IfType {
    fn default() -> (r: Self)
        ensures
            r@ == (AstNode::If {
                condition: Box::new(AstNode::Undefined),
                body: Seq::<AstNode>::empty(),
                else_body: Seq::<AstNode>::empty(),
            }),
    {
        let r = Self {
            condition: Box::new(LangType::Undefined),
            body: Vec::new(),
            else_body: Vec::new(),
        };
        assert(nodes_view(r.body@) =~= Seq::<AstNode>::empty());
        assert(nodes_view(r.else_body@) =~= Seq::<AstNode>::empty());
        r
    }
}

impl IfType {
    pub fn new(condition: LangType, body: Vec<LangType>, else_body: Vec<LangType>) -> (r: Self)
        ensures
            *r.condition == condition,
            r.body == body,
            r.else_body == else_body,
            r@ == (AstNode::If {
                condition: Box::new(condition@),
                body: nodes_view(body@),
                else_body: nodes_view(else_body@),
            }),
    {
        Self { condition: Box::new(condition), body, else_body }
    }
}

impl Clone for IfType {
    fn clone(&self) -> (r: Self)
        ensures
            r@ == self@,
    {
        Self {
            condition: Box::new(copy_node(&*self.condition)),
            body: copy_nodes(&self.body),
            else_body: copy_nodes(&self.else_body),
        }
    }
}

} // verus!
