use vstd::prelude::*;
use crate::types::lang_type::AstNode;

verus! {

/// The kind of a literal.
#[derive(Clone, Copy, Debug, PartialEq, Eq, Structural)]
pub enum Primitives {
    Int,
    String,
    Bool,
}

/// A literal: its text as written and its kind.
#[derive(Debug, PartialEq)]
pub struct PrimitiveType {
    pub value: String,
    pub primitive: Primitives,
}

impl View for PrimitiveType {
    type V = AstNode;

    open spec fn view(&self) -> AstNode {
        AstNode::Primitive { value: self.value@, kind: self.primitive }
    }
}

impl Default for PrimitiveType {
    fn default() -> (r: Self)
        ensures
            r@ == (AstNode::Primitive { value: Seq::<char>::empty(), kind: Primitives::Int }),
    {
        Self { value: String::new(), primitive: Primitives::Int }
    }
}

impl PrimitiveType {
    pub fn new(value: String, primitive: Primitives) -> (r: Self)
        ensures
            r.value == value,
            r.primitive == primitive,
            r@ == (AstNode::Primitive { value: value@, kind: primitive }),
    {
        Self { value, primitive }
    }

    pub fn is_int(&self) -> (r: bool)
        ensures
            r == (self.primitive == Primitives::Int),
    {
        matches!(self.primitive, Primitives::Int)
    }

    pub fn is_string(&self) -> (r: bool)
        ensures
            r == (self.primitive == Primitives::String),
    {
        matches!(self.primitive, Primitives::String)
    }

    pub fn is_bool(&self) -> (r: bool)
        ensures
            r == (self.primitive == Primitives::Bool),
    {
        matches!(self.primitive, Primitives::Bool)
    }
}

impl Clone for PrimitiveType {
    fn clone(&self) -> (r: Self)
        ensures
            r == *self,
    {
        Self { value: self.value.clone(), primitive: self.primitive }
    }
}

} // verus!
