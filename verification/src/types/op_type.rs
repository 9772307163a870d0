use vstd::prelude::*;
use crate::types::lang_type::{AstNode, LangType, copy_node, node_view};
use crate::text::same_text;

verus! {

/// The operator of an `Op` node.
#[derive(Clone, Copy, Debug, PartialEq, Eq, Structural)]
pub enum Operation {
    /// Binding or overwriting a variable.
    Assign,
    Add,
    Sub,
    Mul,
    Div,
    Mod,
    Equal,
    NotEqual,
    LessThan,
    GreaterThan,
    /// What a name that is no arithmetic operator maps to.
    Error,
}

/// The arithmetic operator that `name` stands for, `Operation::Error` if
/// none. Names are case-sensitive.
pub open spec fn op_by_name(name: Seq<char>) -> Operation {
    if name == "add"@ {
        Operation::Add
    } else if name == "sub"@ {
        Operation::Sub
    } else if name == "mul"@ {
        Operation::Mul
    } else if name == "div"@ {
        Operation::Div
    } else if name == "mod"@ {
        Operation::Mod
    } else {
        Operation::Error
    }
}

/// An operator applied to two operands, each owned by this node alone.
#[derive(Debug, PartialEq)]
pub struct OpType {
    pub op: Operation,
    pub lhs: Box<LangType>,
    pub rhs: Box<LangType>,
}

impl View for OpType {
    type V = AstNode;

    open spec fn view(&self) -> AstNode {
        AstNode::Op {
            op: self.op,
            lhs: Box::new(node_view(*self.lhs)),
            rhs: Box::new(node_view(*self.rhs)),
        }
    }
}

impl Default for OpType {
    fn default() -> (r: Self)
        ensures
            r@ == (AstNode::Op {
                op: Operation::Assign,
                lhs: Box::new(AstNode::Undefined),
                rhs: Box::new(AstNode::Undefined),
            }),
    {
        Self {
            op: Operation::Assign,
            lhs: Box::new(LangType::Undefined),
            rhs: Box::new(LangType::Undefined),
        }
    }
}

impl OpType {
    pub fn new(op: Operation, lhs: LangType, rhs: LangType) -> (r: Self)
        ensures
            r.op == op,
            *r.lhs == lhs,
            *r.rhs == rhs,
            r@ == (AstNode::Op { op, lhs: Box::new(lhs@), rhs: Box::new(rhs@) }),
    {
        Self { op, lhs: Box::new(lhs), rhs: Box::new(rhs) }
    }

    /// The arithmetic operator that `op_name` stands for, `Operation::Error`
    /// if none.
    pub fn get_op_by_string(op_name: &str) -> (r: Operation)
        ensures
            r == op_by_name(op_name@),
    {
        if same_text(op_name, "add") {
            Operation::Add
        } else if same_text(op_name, "sub") {
            Operation::Sub
        } else if same_text(op_name, "mul") {
            Operation::Mul
        } else if same_text(op_name, "div") {
            Operation::Div
        } else if same_text(op_name, "mod") {
            Operation::Mod
        } else {
            Operation::Error
        }
    }

    /// Whether `op_name` stands for an arithmetic operator.
    pub fn is_op(op_name: &str) -> (r: bool)
        ensures
            r == (op_by_name(op_name@) != Operation::Error),
    {
        let op = OpType::get_op_by_string(op_name);
        !matches!(op, Operation::Error)
    }
}

impl Clone for OpType {
    fn clone(&self) -> (r: Self)
        ensures
            r@ == self@,
    {
        Self { op: self.op, lhs: Box::new(copy_node(&*self.lhs)), rhs: Box::new(copy_node(&*self.rhs)) }
    }
}

} // verus!
