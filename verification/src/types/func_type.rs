use vstd::prelude::*;
use crate::types::lang_type::{AstNode, LangType, copy_nodes, copy_params, nodes_view};
use crate::types::var_type::VarType;

verus! {

/// The names of a parameter list.
pub open spec fn param_names(params: Seq<VarType>) -> Seq<Seq<char>> {
    Seq::new(params.len(), |i: int| params[i].name@)
}

/// A function definition.
#[derive(Debug, PartialEq)]
pub struct FuncType {
    pub name: String,
    pub param: Vec<VarType>,
    pub body: Vec<LangType>,
}

impl View for FuncType {
    type V = AstNode;

    open spec fn view(&self) -> AstNode {
        AstNode::Func {
            name: self.name@,
            params: param_names(self.param@),
            body: nodes_view(self.body@),
        }
    }
}

impl Default for FuncType {
    fn default() -> (r: Self)
        ensures
            r@ == (AstNode::Func {
                name: Seq::<char>::empty(),
                params: Seq::<Seq<char>>::empty(),
                body: Seq::<AstNode>::empty(),
            }),
    {
        let r = Self { name: String::new(), param: Vec::new(), body: Vec::new() };
        assert(param_names(r.param@) =~= Seq::<Seq<char>>::empty());
        assert(nodes_view(r.body@) =~= Seq::<AstNode>::empty());
        r
    }
}

impl FuncType {
    pub fn new(name: String, param: Vec<VarType>, body: Vec<LangType>) -> (r: Self)
        ensures
            r.name == name,
            r.param == param,
            r.body == body,
            r@ == (AstNode::Func {
                name: name@,
                params: param_names(param@),
                body: nodes_view(body@),
            }),
    {
        Self { name, param, body }
    }
}

impl Clone for FuncType {
    fn clone(&self) -> (r: Self)
        ensures
            r@ == self@,
    {
        Self {
            name: self.name.clone(),
            param: copy_params(&self.param),
            body: copy_nodes(&self.body),
        }
    }
}

} // verus!
