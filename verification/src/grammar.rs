//! The grammar, as functions from logical lines to syntax trees.
//!
//! A logical line is a sequence of tokens; a source file is a sequence of
//! logical lines. `parse_line_spec` says what stands at one position and how
//! far it extends, `parse_file_spec` what the whole file is. Positions
//! saturate at the number of lines: the end of the input closes every block
//! that is still open, and such a block ends at `lines.len()`.

use vstd::prelude::*;
use crate::lexer::TokenView;
use crate::lines::are_logical_lines;
use crate::types::lang_type::AstNode;
use crate::types::op_type::{Operation, op_by_name};
use crate::types::primitive_type::Primitives;

verus! {

/// Why a sequence of logical lines is no program. `pos` is the index of the
/// offending line, `col` that of a token in it.
#[derive(Clone, Copy, Debug, PartialEq, Eq, Structural)]
pub enum ParseError {
    /// The line holds no token.
    EmptyLine { pos: usize },
    /// The line starts with a token that starts no statement, or `let`,
    /// `const` or `fn` is followed by a token that is no name.
    UnexpectedToken { pos: usize },
    /// The line starts with a name and has the shape neither of an
    /// arithmetic operation nor of a call.
    InvalidOperation { pos: usize },
    /// The line ends before column `col`, where `let`, `const`, `fn` or `if`
    /// requires a name or an operand.
    MissingOperand { pos: usize, col: usize },
    /// The token at column `col` is neither a name nor a literal.
    InvalidOperand { pos: usize, col: usize },
    /// The condition of an `if` does not compare with `=`, `!=`, `<` or `>`.
    ExpectedOperator { pos: usize },
    /// The value of a `const` is not a literal.
    InvalidConstant { pos: usize },
}

/// How a boolean literal is written.
pub open spec fn bool_text(b: bool) -> Seq<char> {
    if b {
        "true"@
    } else {
        "false"@
    }
}

/// The operand that a single token denotes: a name is a variable, a
/// literal is itself, and no other token is an operand.
pub open spec fn operand_of(t: TokenView) -> Option<AstNode> {
    match t {
        TokenView::Ident(name) => Some(AstNode::Var { name }),
        TokenView::Int(value) => Some(AstNode::Primitive { value, kind: Primitives::Int }),
        TokenView::String(value) => Some(AstNode::Primitive { value, kind: Primitives::String }),
        TokenView::Bool(b) => Some(
            AstNode::Primitive { value: bool_text(b), kind: Primitives::Bool },
        ),
        _ => None,
    }
}

/// The operand at column `col` of line `pos`.
pub open spec fn operand_at(line: Seq<TokenView>, pos: int, col: int) -> Result<
    AstNode,
    ParseError,
> {
    if col < 0 || col >= line.len() {
        Err(ParseError::MissingOperand { pos: pos as usize, col: col as usize })
    } else {
        match operand_of(line[col]) {
            Some(node) => Ok(node),
            None => Err(ParseError::InvalidOperand { pos: pos as usize, col: col as usize }),
        }
    }
}

/// The name at column `col` of line `pos`.
pub open spec fn name_at(line: Seq<TokenView>, pos: int, col: int) -> Result<
    Seq<char>,
    ParseError,
> {
    if col < 0 || col >= line.len() {
        Err(ParseError::MissingOperand { pos: pos as usize, col: col as usize })
    } else {
        match line[col] {
            TokenView::Ident(name) => Ok(name),
            _ => Err(ParseError::UnexpectedToken { pos: pos as usize }),
        }
    }
}

/// `target := value`.
pub open spec fn assign(target: Seq<char>, value: AstNode) -> AstNode {
    AstNode::Op {
        op: Operation::Assign,
        lhs: Box::new(AstNode::Var { name: target }),
        rhs: Box::new(value),
    }
}

/// The operands from column `col` up to the first `)`, or up to the end of
/// the line where none follows. The leftmost token that is no operand
/// fails the whole list.
pub open spec fn call_args(line: Seq<TokenView>, pos: int, col: int) -> Result<
    Seq<AstNode>,
    ParseError,
>
    decreases line.len() - col,
{
    if col < 0 || col >= line.len() || line[col] is Rparen {
        Ok(Seq::empty())
    } else {
        match operand_of(line[col]) {
            None => Err(ParseError::InvalidOperand { pos: pos as usize, col: col as usize }),
            Some(node) => match call_args(line, pos, col + 1) {
                Err(e) => Err(e),
                Ok(rest) => Ok(seq![node] + rest),
            },
        }
    }
}

/// An arithmetic operation `op`, whose name stands at column 0 of `line`.
///
/// With four or more tokens the line reads `OP dest lhs rhs` and assigns
/// `lhs OP rhs` to `dest`. With three it reads `OP var rhs` and assigns
/// `var OP rhs` to `var`. A line of neither shape, because it is shorter
/// or because no name stands at column 1, is an `InvalidOperation`.
pub open spec fn parse_arith(op: Operation, line: Seq<TokenView>, pos: int) -> Result<
    AstNode,
    ParseError,
> {
    if line.len() < 3 {
        Err(ParseError::InvalidOperation { pos: pos as usize })
    } else {
        match line[1] {
            TokenView::Ident(target) => if line.len() > 3 {
                match operand_at(line, pos, 2) {
                    Err(e) => Err(e),
                    Ok(lhs) => match operand_at(line, pos, 3) {
                        Err(e) => Err(e),
                        Ok(rhs) => Ok(
                            assign(
                                target,
                                AstNode::Op { op, lhs: Box::new(lhs), rhs: Box::new(rhs) },
                            ),
                        ),
                    },
                }
            } else {
                match operand_at(line, pos, 2) {
                    Err(e) => Err(e),
                    Ok(rhs) => Ok(
                        assign(
                            target,
                            AstNode::Op {
                                op,
                                lhs: Box::new(AstNode::Var { name: target }),
                                rhs: Box::new(rhs),
                            },
                        ),
                    ),
                }
            },
            _ => Err(ParseError::InvalidOperation { pos: pos as usize }),
        }
    }
}

/// A line that starts with the name `name`: an arithmetic operation where
/// `name` is an operator, else a call where `(` is the second token, else
/// an `InvalidOperation`.
pub open spec fn parse_named(name: Seq<char>, line: Seq<TokenView>, pos: int) -> Result<
    AstNode,
    ParseError,
> {
    if op_by_name(name) != Operation::Error {
        parse_arith(op_by_name(name), line, pos)
    } else if line.len() > 1 && line[1] is Lparen {
        match call_args(line, pos, 2) {
            Err(e) => Err(e),
            Ok(args) => Ok(AstNode::Call { name, args }),
        }
    } else {
        Err(ParseError::InvalidOperation { pos: pos as usize })
    }
}

/// `let NAME OPERAND`.
pub open spec fn parse_let(line: Seq<TokenView>, pos: int) -> Result<AstNode, ParseError> {
    match name_at(line, pos, 1) {
        Err(e) => Err(e),
        Ok(name) => match operand_at(line, pos, 2) {
            Err(e) => Err(e),
            Ok(value) => Ok(assign(name, value)),
        },
    }
}

/// `const NAME LITERAL`.
pub open spec fn parse_const(line: Seq<TokenView>, pos: int) -> Result<AstNode, ParseError> {
    match name_at(line, pos, 1) {
        Err(e) => Err(e),
        Ok(name) => match operand_at(line, pos, 2) {
            Err(e) => Err(e),
            Ok(AstNode::Primitive { value, .. }) => Ok(AstNode::Const { name, value }),
            Ok(_) => Err(ParseError::InvalidConstant { pos: pos as usize }),
        },
    }
}

/// The parameters that a function header names from column `col` on: the
/// names before the first `:`, but for those that repeat the function's own
/// name. Tokens that are no names are passed over.
pub open spec fn header_params(line: Seq<TokenView>, fn_name: Seq<char>, col: int) -> Seq<
    Seq<char>,
>
    decreases line.len() - col,
{
    if col < 0 || col >= line.len() || line[col] is Colon {
        Seq::empty()
    } else {
        match line[col] {
            TokenView::Ident(name) => if name == fn_name {
                header_params(line, fn_name, col + 1)
            } else {
                seq![name] + header_params(line, fn_name, col + 1)
            },
            _ => header_params(line, fn_name, col + 1),
        }
    }
}

/// The comparison that a token stands for in a condition.
pub open spec fn relation_of(t: TokenView) -> Option<Operation> {
    match t {
        TokenView::Equal => Some(Operation::Equal),
        TokenView::NotEqual => Some(Operation::NotEqual),
        TokenView::LessThan => Some(Operation::LessThan),
        TokenView::GreaterThan => Some(Operation::GreaterThan),
        _ => None,
    }
}

/// The condition of `if LHS REL RHS`: both operands are resolved, the left
/// one first, before the comparison is looked at.
pub open spec fn parse_condition(line: Seq<TokenView>, pos: int) -> Result<AstNode, ParseError> {
    match operand_at(line, pos, 1) {
        Err(e) => Err(e),
        Ok(lhs) => match operand_at(line, pos, 3) {
            Err(e) => Err(e),
            Ok(rhs) => match relation_of(line[2]) {
                None => Err(ParseError::ExpectedOperator { pos: pos as usize }),
                Some(op) => Ok(AstNode::Op { op, lhs: Box::new(lhs), rhs: Box::new(rhs) }),
            },
        },
    }
}

/// A node and its extent: it starts on some line `pos` and ends on line
/// `pos + extra`.
pub struct Parsed {
    pub node: AstNode,
    pub extra: nat,
}

/// A block: its statements, the marker that closed it, and its extent. A
/// block that starts on line `start` is closed on line `start + extra`.
pub struct Block {
    pub nodes: Seq<AstNode>,
    pub closer: AstNode,
    pub extra: nat,
}

/// Whether `node` closes a block. `Else` does so only in the first body of
/// an `if`, and opens the second. As the grammar stands no line reads as
/// `Else` (`lemma_parsed_finished`): a line that starts with `else` is an
/// error like any other that starts no statement.
pub open spec fn closes(node: AstNode, stop_at_else: bool) -> bool {
    node is End || node is Eof || (stop_at_else && node is Else)
}

/// The line after line `pos`, and `lines.len()` where there is none.
pub open spec fn next_line(lines: Seq<Seq<TokenView>>, pos: int) -> int {
    if pos < lines.len() {
        pos + 1
    } else {
        lines.len() as int
    }
}

/// How many lines lie between `pos` and the end.
pub open spec fn lines_left(lines: Seq<Seq<TokenView>>, pos: int) -> nat {
    if pos < lines.len() {
        (lines.len() - pos) as nat
    } else {
        0
    }
}

/// What stands at line `pos`.
///
/// Past the last line stands `Eof`. A line is told by its first token: a
/// name, `let` and `const` are statements of one line; `fn` and `if` open a
/// block that the following lines fill; a comment, `end` and an end-of-input
/// token stand for themselves. Any other first token is an error, and so is
/// a line without tokens.
pub open spec fn parse_line_spec(lines: Seq<Seq<TokenView>>, pos: int) -> Result<
    Parsed,
    ParseError,
>
    decreases lines_left(lines, pos), 0nat,
{
    if pos < 0 || pos >= lines.len() {
        Ok(Parsed { node: AstNode::Eof, extra: 0 })
    } else if lines[pos].len() == 0 {
        Err(ParseError::EmptyLine { pos: pos as usize })
    } else {
        let line = lines[pos];
        match line[0] {
            TokenView::Ident(name) => match parse_named(name, line, pos) {
                Err(e) => Err(e),
                Ok(node) => Ok(Parsed { node, extra: 0 }),
            },
            TokenView::Let => match parse_let(line, pos) {
                Err(e) => Err(e),
                Ok(node) => Ok(Parsed { node, extra: 0 }),
            },
            TokenView::Const => match parse_const(line, pos) {
                Err(e) => Err(e),
                Ok(node) => Ok(Parsed { node, extra: 0 }),
            },
            TokenView::Function => match name_at(line, pos, 1) {
                Err(e) => Err(e),
                Ok(name) => match parse_block(lines, pos + 1, false) {
                    Err(e) => Err(e),
                    Ok(body) => Ok(
                        Parsed {
                            node: AstNode::Func {
                                name,
                                params: header_params(line, name, 0),
                                body: body.nodes,
                            },
                            extra: 1 + body.extra,
                        },
                    ),
                },
            },
            TokenView::If => match parse_condition(line, pos) {
                Err(e) => Err(e),
                Ok(condition) => match parse_block(lines, pos + 1, true) {
                    Err(e) => Err(e),
                    Ok(body) => if body.closer is Else {
                        let resume = next_line(lines, pos + 1 + body.extra);
                        match parse_block(lines, resume, false) {
                            Err(e) => Err(e),
                            Ok(else_body) => Ok(
                                Parsed {
                                    node: AstNode::If {
                                        condition: Box::new(condition),
                                        body: body.nodes,
                                        else_body: else_body.nodes,
                                    },
                                    extra: (resume - pos + else_body.extra) as nat,
                                },
                            ),
                        }
                    } else {
                        Ok(
                            Parsed {
                                node: AstNode::If {
                                    condition: Box::new(condition),
                                    body: body.nodes,
                                    else_body: Seq::empty(),
                                },
                                extra: 1 + body.extra,
                            },
                        )
                    },
                },
            },
            TokenView::Comment(text) => Ok(Parsed { node: AstNode::Comment(text), extra: 0 }),
            TokenView::End => Ok(Parsed { node: AstNode::End, extra: 0 }),
            TokenView::Eof => Ok(Parsed { node: AstNode::Eof, extra: 0 }),
            _ => Err(ParseError::UnexpectedToken { pos: pos as usize }),
        }
    }
}

/// The block that starts at line `start`: the nodes of the following lines
/// up to the first that closes it. The closing marker is no part of the
/// block. An error in any line is the block's error.
pub open spec fn parse_block(lines: Seq<Seq<TokenView>>, start: int, stop_at_else: bool) -> Result<
    Block,
    ParseError,
>
    decreases lines_left(lines, start), 1nat,
{
    if start < 0 || start >= lines.len() {
        Ok(Block { nodes: Seq::empty(), closer: AstNode::Eof, extra: 0 })
    } else {
        match parse_line_spec(lines, start) {
            Err(e) => Err(e),
            Ok(first) => if closes(first.node, stop_at_else) {
                Ok(Block { nodes: Seq::empty(), closer: first.node, extra: first.extra })
            } else {
                let resume = next_line(lines, start + first.extra);
                match parse_block(lines, resume, stop_at_else) {
                    Err(e) => Err(e),
                    Ok(rest) => Ok(
                        Block {
                            nodes: seq![first.node] + rest.nodes,
                            closer: rest.closer,
                            extra: (resume - start + rest.extra) as nat,
                        },
                    ),
                }
            },
        }
    }
}

/// The top-level nodes from line `pos` on: one node after the other, each
/// starting on the line after the one before it ends, until the lines run
/// out or `Eof` stands at a line.
pub open spec fn parse_from(lines: Seq<Seq<TokenView>>, pos: int) -> Result<
    Seq<AstNode>,
    ParseError,
>
    decreases lines_left(lines, pos),
{
    if pos < 0 || pos >= lines.len() {
        Ok(Seq::empty())
    } else {
        match parse_line_spec(lines, pos) {
            Err(e) => Err(e),
            Ok(first) => if first.node is Eof {
                Ok(Seq::empty())
            } else {
                match parse_from(lines, pos + first.extra + 1) {
                    Err(e) => Err(e),
                    Ok(rest) => Ok(seq![first.node] + rest),
                }
            },
        }
    }
}

/// The syntax tree of a whole file.
pub open spec fn parse_file_spec(lines: Seq<Seq<TokenView>>) -> Result<Seq<AstNode>, ParseError> {
    parse_from(lines, 0)
}

/// Whether line `pos` is a statement of one line: it starts with a name,
/// `let`, `const` or a comment, and it parses.
pub open spec fn is_plain_statement(lines: Seq<Seq<TokenView>>, pos: int) -> bool {
    &&& 0 <= pos < lines.len()
    &&& lines[pos].len() > 0
    &&& (lines[pos][0] is Ident || lines[pos][0] is Let || lines[pos][0] is Const
        || lines[pos][0] is Comment)
    &&& parse_line_spec(lines, pos) is Ok
}

/// The nodes of lines `from` up to, and without, line `to`, each line
/// parsed by itself.
pub open spec fn nodes_of_lines(lines: Seq<Seq<TokenView>>, from: int, to: int) -> Seq<AstNode> {
    Seq::new((to - from) as nat, |i: int| parse_line_spec(lines, from + i)->Ok_0.node)
}

/// A node never ends past the last line, unless it is the `Eof` that
/// stands there; nor does a block.
pub proof fn lemma_extent_in_bounds(lines: Seq<Seq<TokenView>>, pos: int, stop_at_else: bool)
    requires
        0 <= pos <= lines.len(),
    ensures
        parse_line_spec(lines, pos) matches Ok(parsed) ==> pos + parsed.extra <= lines.len(),
        parse_block(lines, pos, stop_at_else) matches Ok(block) ==> pos + block.extra
            <= lines.len(),
    decreases lines_left(lines, pos), 2nat,
{
    lemma_node_in_bounds(lines, pos);
    lemma_block_in_bounds(lines, pos, stop_at_else);
}

proof fn lemma_node_in_bounds(lines: Seq<Seq<TokenView>>, pos: int)
    requires
        0 <= pos <= lines.len(),
    ensures
        parse_line_spec(lines, pos) matches Ok(parsed) ==> pos + parsed.extra <= lines.len(),
    decreases lines_left(lines, pos), 0nat,
{
    if pos < lines.len() && lines[pos].len() > 0 {
        let line = lines[pos];
        match line[0] {
            TokenView::Function => {
                lemma_block_in_bounds(lines, pos + 1, false);
            },
            TokenView::If => {
                lemma_block_in_bounds(lines, pos + 1, true);
                if let Ok(body) = parse_block(lines, pos + 1, true) {
                    lemma_block_in_bounds(lines, next_line(lines, pos + 1 + body.extra), false);
                }
            },
            _ => {},
        }
    }
}

proof fn lemma_block_in_bounds(lines: Seq<Seq<TokenView>>, start: int, stop_at_else: bool)
    requires
        0 <= start <= lines.len(),
    ensures
        parse_block(lines, start, stop_at_else) matches Ok(block) ==> start + block.extra
            <= lines.len(),
    decreases lines_left(lines, start), 1nat,
{
    if start < lines.len() {
        lemma_node_in_bounds(lines, start);
        if let Ok(first) = parse_line_spec(lines, start) {
            if !closes(first.node, stop_at_else) {
                lemma_block_in_bounds(lines, next_line(lines, start + first.extra), stop_at_else);
            }
        }
    }
}

/// A run of one-line statements up to an `end` is a block of their nodes,
/// closed by that `end`.
pub proof fn lemma_flat_block(lines: Seq<Seq<TokenView>>, start: int, end: int)
    requires
        0 <= start <= end < lines.len(),
        forall|i: int| start <= i < end ==> is_plain_statement(lines, i),
        lines[end].len() > 0,
        lines[end][0] is End,
    ensures
        parse_block(lines, start, false) == Ok::<Block, ParseError>(
            Block {
                nodes: nodes_of_lines(lines, start, end),
                closer: AstNode::End,
                extra: (end - start) as nat,
            },
        ),
    decreases end - start,
{
    if start == end {
        assert(nodes_of_lines(lines, start, end) =~= Seq::empty());
    } else {
        assert(is_plain_statement(lines, start));
        let first = parse_line_spec(lines, start)->Ok_0;
        assert(first.extra == 0 && !closes(first.node, false)) by {
            lemma_plain_statement(lines, start);
        }
        lemma_flat_block(lines, start + 1, end);
        assert(seq![first.node] + nodes_of_lines(lines, start + 1, end) =~= nodes_of_lines(
            lines,
            start,
            end,
        ));
    }
}

/// A statement of one line ends where it starts and closes no block.
pub proof fn lemma_plain_statement(lines: Seq<Seq<TokenView>>, pos: int)
    requires
        is_plain_statement(lines, pos),
    ensures
        parse_line_spec(lines, pos)->Ok_0.extra == 0,
        !closes(parse_line_spec(lines, pos)->Ok_0.node, true),
{
}

/// A function definition whose body is a run of one-line statements is,
/// as a file, one `Func` node: it has the name that the header gives, the
/// parameters of the header, and one body node for each body line, in
/// order. A comment line among them gives a `Comment` node.
pub proof fn lemma_function_definition(lines: Seq<Seq<TokenView>>, name: Seq<char>)
    requires
        lines.len() >= 2,
        lines[0].len() >= 2,
        lines[0][0] is Function,
        lines[0][1] == TokenView::Ident(name),
        forall|i: int| 0 < i < lines.len() - 1 ==> is_plain_statement(lines, i),
        lines[lines.len() - 1].len() > 0,
        lines[lines.len() - 1][0] is End,
    ensures
        parse_file_spec(lines) == Ok::<Seq<AstNode>, ParseError>(
            seq![
                AstNode::Func {
                    name,
                    params: header_params(lines[0], name, 0),
                    body: nodes_of_lines(lines, 1, lines.len() - 1),
                },
            ],
        ),
{
    let last = lines.len() - 1;
    lemma_flat_block(lines, 1, last);
    let func = AstNode::Func {
        name,
        params: header_params(lines[0], name, 0),
        body: nodes_of_lines(lines, 1, last),
    };
    assert(parse_line_spec(lines, 0) == Ok::<Parsed, ParseError>(
        Parsed { node: func, extra: last as nat },
    ));
    assert(parse_from(lines, last + 1) == Ok::<Seq<AstNode>, ParseError>(Seq::empty()));
    assert(seq![func] + Seq::<AstNode>::empty() =~= seq![func]);
}

/// Whether a tree is finished: neither it nor any node below it is one
/// of the markers `Else`, `End`, `Eof`, or `Undefined`.
pub open spec fn is_finished(node: AstNode) -> bool
    decreases node,
{
    match node {
        AstNode::Op { lhs, rhs, .. } => is_finished(*lhs) && is_finished(*rhs),
        AstNode::Primitive { .. } => true,
        AstNode::Const { .. } => true,
        AstNode::Var { .. } => true,
        AstNode::Call { args, .. } => forall|i: int|
            0 <= i < args.len() ==> is_finished(#[trigger] args[i]),
        AstNode::Func { body, .. } => forall|i: int|
            0 <= i < body.len() ==> is_finished(#[trigger] body[i]),
        AstNode::If { condition, body, else_body } => {
            &&& is_finished(*condition)
            &&& forall|i: int| 0 <= i < body.len() ==> is_finished(#[trigger] body[i])
            &&& forall|i: int| 0 <= i < else_body.len() ==> is_finished(#[trigger] else_body[i])
        },
        AstNode::Comment(_) => true,
        AstNode::Else => false,
        AstNode::End => false,
        AstNode::Eof => false,
        AstNode::Undefined => false,
    }
}

/// Whether each of `nodes` is finished.
pub open spec fn all_finished(nodes: Seq<AstNode>) -> bool {
    forall|i: int| 0 <= i < nodes.len() ==> is_finished(#[trigger] nodes[i])
}

/// The arguments of a call are finished trees.
pub proof fn lemma_call_args_finished(line: Seq<TokenView>, pos: int, col: int)
    ensures
        call_args(line, pos, col) matches Ok(args) ==> all_finished(args),
    decreases line.len() - col,
{
    if col < 0 || col >= line.len() || line[col] is Rparen {
    } else if let Some(node) = operand_of(line[col]) {
        lemma_call_args_finished(line, pos, col + 1);
        if let Ok(rest) = call_args(line, pos, col + 1) {
            let args = seq![node] + rest;
            assert forall|i: int| 0 <= i < args.len() implies is_finished(#[trigger] args[i]) by {
                if i > 0 {
                    assert(args[i] == rest[i - 1]);
                }
            }
        }
    }
}

/// What stands at a line is `End`, `Eof` or a finished tree, and the
/// statements of a block are finished trees: no marker is left inside a
/// node, and a line never reads as `Else` or `Undefined`.
pub proof fn lemma_parsed_finished(lines: Seq<Seq<TokenView>>, pos: int, stop_at_else: bool)
    ensures
        parse_line_spec(lines, pos) matches Ok(parsed) ==> parsed.node is End || parsed.node is Eof
            || is_finished(parsed.node),
        parse_block(lines, pos, stop_at_else) matches Ok(block) ==> all_finished(block.nodes) && (
        block.closer is End || block.closer is Eof),
    decreases lines_left(lines, pos), 2nat,
{
    lemma_node_finished(lines, pos);
    lemma_block_finished(lines, pos, stop_at_else);
}

proof fn lemma_node_finished(lines: Seq<Seq<TokenView>>, pos: int)
    ensures
        parse_line_spec(lines, pos) matches Ok(parsed) ==> parsed.node is End || parsed.node is Eof
            || is_finished(parsed.node),
    decreases lines_left(lines, pos), 0nat,
{
    reveal_with_fuel(is_finished, 4);
    if 0 <= pos < lines.len() && lines[pos].len() > 0 {
        let line = lines[pos];
        match line[0] {
            TokenView::Ident(name) => {
                lemma_call_args_finished(line, pos, 2);
            },
            TokenView::Function => {
                lemma_block_finished(lines, pos + 1, false);
            },
            TokenView::If => {
                lemma_block_finished(lines, pos + 1, true);
                if let Ok(body) = parse_block(lines, pos + 1, true) {
                    lemma_block_finished(lines, next_line(lines, pos + 1 + body.extra), false);
                }
            },
            _ => {},
        }
    }
}

proof fn lemma_block_finished(lines: Seq<Seq<TokenView>>, start: int, stop_at_else: bool)
    ensures
        parse_block(lines, start, stop_at_else) matches Ok(block) ==> all_finished(block.nodes)
            && (block.closer is End || block.closer is Eof),
    decreases lines_left(lines, start), 1nat,
{
    if 0 <= start < lines.len() {
        lemma_node_finished(lines, start);
        if let Ok(first) = parse_line_spec(lines, start) {
            if !closes(first.node, stop_at_else) {
                let resume = next_line(lines, start + first.extra);
                lemma_block_finished(lines, resume, stop_at_else);
                if let Ok(rest) = parse_block(lines, resume, stop_at_else) {
                    let nodes = seq![first.node] + rest.nodes;
                    assert forall|i: int| 0 <= i < nodes.len() implies is_finished(
                        #[trigger] nodes[i],
                    ) by {
                        if i > 0 {
                            assert(nodes[i] == rest.nodes[i - 1]);
                        }
                    }
                }
            }
        }
    }
}

/// Each top-level node of a file is a finished tree, or an `End` that
/// closes no block.
pub proof fn lemma_file_finished(lines: Seq<Seq<TokenView>>, pos: int)
    ensures
        parse_from(lines, pos) matches Ok(nodes) ==> forall|i: int|
            0 <= i < nodes.len() ==> (#[trigger] nodes[i]) is End || is_finished(nodes[i]),
    decreases lines_left(lines, pos),
{
    if 0 <= pos < lines.len() {
        lemma_node_finished(lines, pos);
        if let Ok(first) = parse_line_spec(lines, pos) {
            if !(first.node is Eof) {
                lemma_file_finished(lines, pos + first.extra + 1);
                if let Ok(rest) = parse_from(lines, pos + first.extra + 1) {
                    let nodes = seq![first.node] + rest;
                    assert forall|i: int| 0 <= i < nodes.len() implies (#[trigger] nodes[i]) is End
                        || is_finished(nodes[i]) by {
                        if i > 0 {
                            assert(nodes[i] == rest[i - 1]);
                        }
                    }
                }
            }
        }
    }
}

/// Among logical lines none is empty, so none is reported as empty: the
/// error `EmptyLine` comes only of lines that were not cut from a token
/// stream.
pub proof fn lemma_never_empty_line(lines: Seq<Seq<TokenView>>, pos: int, stop_at_else: bool)
    requires
        are_logical_lines(lines),
    ensures
        parse_line_spec(lines, pos) matches Err(e) ==> !(e is EmptyLine),
        parse_block(lines, pos, stop_at_else) matches Err(e) ==> !(e is EmptyLine),
        parse_from(lines, pos) matches Err(e) ==> !(e is EmptyLine),
    decreases lines_left(lines, pos), 2nat,
{
    lemma_node_never_empty(lines, pos);
    lemma_block_never_empty(lines, pos, stop_at_else);
    lemma_file_never_empty(lines, pos);
}

proof fn lemma_node_never_empty(lines: Seq<Seq<TokenView>>, pos: int)
    requires
        are_logical_lines(lines),
    ensures
        parse_line_spec(lines, pos) matches Err(e) ==> !(e is EmptyLine),
    decreases lines_left(lines, pos), 0nat,
{
    if 0 <= pos < lines.len() {
        let line = lines[pos];
        assert(line.len() > 0);
        match line[0] {
            TokenView::Ident(name) => {
                lemma_call_args_errors(line, pos, 2);
            },
            TokenView::Function => {
                lemma_block_never_empty(lines, pos + 1, false);
            },
            TokenView::If => {
                lemma_block_never_empty(lines, pos + 1, true);
                if let Ok(body) = parse_block(lines, pos + 1, true) {
                    lemma_block_never_empty(lines, next_line(lines, pos + 1 + body.extra), false);
                }
            },
            _ => {},
        }
    }
}

proof fn lemma_block_never_empty(lines: Seq<Seq<TokenView>>, start: int, stop_at_else: bool)
    requires
        are_logical_lines(lines),
    ensures
        parse_block(lines, start, stop_at_else) matches Err(e) ==> !(e is EmptyLine),
    decreases lines_left(lines, start), 1nat,
{
    if 0 <= start < lines.len() {
        lemma_node_never_empty(lines, start);
        if let Ok(first) = parse_line_spec(lines, start) {
            if !closes(first.node, stop_at_else) {
                lemma_block_never_empty(lines, next_line(lines, start + first.extra), stop_at_else);
            }
        }
    }
}

proof fn lemma_file_never_empty(lines: Seq<Seq<TokenView>>, pos: int)
    requires
        are_logical_lines(lines),
    ensures
        parse_from(lines, pos) matches Err(e) ==> !(e is EmptyLine),
    decreases lines_left(lines, pos),
{
    if 0 <= pos < lines.len() {
        lemma_node_never_empty(lines, pos);
        if let Ok(first) = parse_line_spec(lines, pos) {
            if !(first.node is Eof) {
                lemma_file_never_empty(lines, pos + first.extra + 1);
            }
        }
    }
}

/// The one error of an argument list is `InvalidOperand`.
proof fn lemma_call_args_errors(line: Seq<TokenView>, pos: int, col: int)
    ensures
        call_args(line, pos, col) matches Err(e) ==> e is InvalidOperand,
    decreases line.len() - col,
{
    if col < 0 || col >= line.len() || line[col] is Rparen {
    } else if operand_of(line[col]) is Some {
        lemma_call_args_errors(line, pos, col + 1);
    }
}

} // verus!
