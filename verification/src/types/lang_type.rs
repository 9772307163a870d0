use vstd::prelude::*;
use crate::types::call_type::CallType;
use crate::types::const_type::ConstType;
use crate::types::func_type::{FuncType, param_names};
use crate::types::if_type::IfType;
use crate::types::op_type::{OpType, Operation};
use crate::types::primitive_type::{PrimitiveType, Primitives};
use crate::types::var_type::VarType;

verus! {

/// The mathematical value of a syntax tree: what a `LangType` denotes once
/// its strings and vectors are read as sequences.
pub enum AstNode {
    Op { op: Operation, lhs: Box<AstNode>, rhs: Box<AstNode> },
    Primitive { value: Seq<char>, kind: Primitives },
    Const { name: Seq<char>, value: Seq<char> },
    Var { name: Seq<char> },
    Call { name: Seq<char>, args: Seq<AstNode> },
    Func { name: Seq<char>, params: Seq<Seq<char>>, body: Seq<AstNode> },
    If { condition: Box<AstNode>, body: Seq<AstNode>, else_body: Seq<AstNode> },
    Else,
    End,
    Eof,
    Comment(Seq<char>),
    Undefined,
}

/// One node of the syntax tree.
#[derive(Debug, PartialEq)]
pub enum LangType {
    Op(OpType),
    Primitive(PrimitiveType),
    Const(ConstType),
    Var(VarType),
    Call(CallType),
    Func(FuncType),
    If(IfType),
    /// Markers that end a block while parsing.
    Else,
    End,
    Eof,
    Comment(String),
    Undefined,
}

/// The value of one node.
pub open spec fn node_view(node: LangType) -> AstNode
    decreases node,
{
    match node {
        LangType::Op(o) => AstNode::Op {
            op: o.op,
            lhs: Box::new(node_view(*o.lhs)),
            rhs: Box::new(node_view(*o.rhs)),
        },
        LangType::Primitive(p) => AstNode::Primitive { value: p.value@, kind: p.primitive },
        LangType::Const(c) => AstNode::Const { name: c.name@, value: c.value@ },
        LangType::Var(v) => AstNode::Var { name: v.name@ },
        LangType::Call(c) => AstNode::Call { name: c.name@, args: nodes_view(c.param@) },
        LangType::Func(f) => AstNode::Func {
            name: f.name@,
            params: param_names(f.param@),
            body: nodes_view(f.body@),
        },
        LangType::If(i) => AstNode::If {
            condition: Box::new(node_view(*i.condition)),
            body: nodes_view(i.body@),
            else_body: nodes_view(i.else_body@),
        },
        LangType::Else => AstNode::Else,
        LangType::End => AstNode::End,
        LangType::Eof => AstNode::Eof,
        LangType::Comment(c) => AstNode::Comment(c@),
        LangType::Undefined => AstNode::Undefined,
    }
}

/// The values of a sequence of nodes, in order.
pub open spec fn nodes_view(nodes: Seq<LangType>) -> Seq<AstNode>
    decreases nodes,
{
    Seq::new(
        nodes.len(),
        |i: int|
            if 0 <= i < nodes.len() {
                node_view(nodes[i])
            } else {
                AstNode::Undefined
            },
    )
}

impl View for LangType {
    type V = AstNode;

    open spec fn view(&self) -> AstNode {
        node_view(*self)
    }
}

/// A copy of `node` with the same value.
pub fn copy_node(node: &LangType) -> (r: LangType)
    ensures
        r@ == node@,
    decreases node,
{
    match node {
        LangType::Op(o) => LangType::Op(
            OpType { op: o.op, lhs: Box::new(copy_node(&*o.lhs)), rhs: Box::new(copy_node(&*o.rhs)) },
        ),
        LangType::Primitive(p) => LangType::Primitive(p.clone()),
        LangType::Const(c) => LangType::Const(c.clone()),
        LangType::Var(v) => LangType::Var(v.clone()),
        LangType::Call(c) => LangType::Call(
            CallType { name: c.name.clone(), param: copy_nodes(&c.param) },
        ),
        LangType::Func(f) => LangType::Func(
            FuncType {
                name: f.name.clone(),
                param: copy_params(&f.param),
                body: copy_nodes(&f.body),
            },
        ),
        LangType::If(i) => LangType::If(
            IfType {
                condition: Box::new(copy_node(&*i.condition)),
                body: copy_nodes(&i.body),
                else_body: copy_nodes(&i.else_body),
            },
        ),
        LangType::Else => LangType::Else,
        LangType::End => LangType::End,
        LangType::Eof => LangType::Eof,
        LangType::Comment(c) => LangType::Comment(c.clone()),
        LangType::Undefined => LangType::Undefined,
    }
}

/// Copies of `nodes`, in order.
pub fn copy_nodes(nodes: &Vec<LangType>) -> (r: Vec<LangType>)
    ensures
        nodes_view(r@) == nodes_view(nodes@),
    decreases nodes,
{
    let mut copies: Vec<LangType> = Vec::new();
    let mut i: usize = 0;
    while i < nodes.len()
        invariant
            i <= nodes.len(),
            copies.len() == i,
            forall|j: int| 0 <= j < i ==> copies[j]@ == nodes[j]@,
        decreases nodes.len() - i,
    {
        copies.push(copy_node(&nodes[i]));
        i += 1;
    }
    assert(nodes_view(copies@) =~= nodes_view(nodes@));
    copies
}

/// Copies of `params`, in order.
pub fn copy_params(params: &Vec<VarType>) -> (r: Vec<VarType>)
    ensures
        param_names(r@) == param_names(params@),
{
    let mut copies: Vec<VarType> = Vec::new();
    let mut i: usize = 0;
    while i < params.len()
        invariant
            i <= params.len(),
            copies.len() == i,
            forall|j: int| 0 <= j < i ==> copies[j].name@ == params[j].name@,
        decreases params.len() - i,
    {
        copies.push(params[i].clone());
        i += 1;
    }
    assert(param_names(copies@) =~= param_names(params@));
    copies
}

impl Clone for LangType {
    fn clone(&self) -> (r: Self)
        ensures
            r@ == self@,
    {
        copy_node(self)
    }
}

} // verus!
