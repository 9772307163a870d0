//! The syntax tree: one module per node shape.

pub mod call_type;
pub mod const_type;
pub mod func_type;
pub mod if_type;
pub mod lang_type;
pub mod op_type;
pub mod primitive_type;
pub mod var_type;
