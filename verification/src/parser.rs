//! The parser: a cursor over logical lines that follows the grammar of
//! `crate::grammar` by recursive descent.

use vstd::prelude::*;
use vstd::string::*;
use crate::grammar::{
    Block, ParseError, assign, bool_text, call_args, header_params, lines_left, name_at,
    operand_at, parse_arith, parse_block, parse_condition, parse_const, parse_file_spec,
    parse_from, parse_let, parse_line_spec, parse_named,
};
use crate::lexer::{Token, TokenView, tokens_view};
use crate::lines::{
    are_logical_lines, count_lines, lemma_line_len, lemma_split_lines_count,
    lemma_split_lines_logical, line_at, lines_view, split_lines,
};
use crate::types::call_type::CallType;
use crate::types::const_type::ConstType;
use crate::types::func_type::{FuncType, param_names};
use crate::types::if_type::IfType;
use crate::types::lang_type::{AstNode, LangType, nodes_view};
use crate::types::op_type::{OpType, Operation};
use crate::types::primitive_type::{PrimitiveType, Primitives};
use crate::types::var_type::VarType;

verus! {

/// A node together with the position of the line on which it ends.
#[derive(Debug, PartialEq)]
pub struct ParserResult {
    pub lang_t: LangType,
    pub pos: usize,
}

impl ParserResult {
    pub fn new(lang_t: LangType, pos: usize) -> (r: Self)
        ensures
            r.lang_t == lang_t,
            r.pos == pos,
    {
        Self { lang_t, pos }
    }
}

/// The statements of a block, the marker that closed it and the position
/// of that marker.
struct Body {
    nodes: Vec<LangType>,
    closer: LangType,
    end: usize,
}

/// `rest`, with `prefix` in front of its nodes and `skipped` more lines.
spec fn block_after(prefix: Seq<AstNode>, skipped: int, rest: Result<Block, ParseError>)
    -> Result<Block, ParseError> {
    match rest {
        Err(e) => Err(e),
        Ok(b) => Ok(
            Block {
                nodes: prefix + b.nodes,
                closer: b.closer,
                extra: (skipped + b.extra) as nat,
            },
        ),
    }
}

/// `rest`, with `prefix` in front of it.
spec fn nodes_after(prefix: Seq<AstNode>, rest: Result<Seq<AstNode>, ParseError>)
    -> Result<Seq<AstNode>, ParseError> {
    match rest {
        Err(e) => Err(e),
        Ok(nodes) => Ok(prefix + nodes),
    }
}

proof fn lemma_nodes_view_push(nodes: Seq<LangType>, node: LangType)
    ensures
        nodes_view(nodes.push(node)) == nodes_view(nodes).push(node@),
{
    assert(nodes_view(nodes.push(node)) =~= nodes_view(nodes).push(node@));
}

proof fn lemma_param_names_push(params: Seq<VarType>, param: VarType)
    ensures
        param_names(params.push(param)) == param_names(params).push(param.name@),
{
    assert(param_names(params.push(param)) =~= param_names(params).push(param.name@));
}

/// How a boolean literal is written.
fn bool_string(b: bool) -> (r: String)
    ensures
        r@ == bool_text(b),
{
    if b {
        String::from_str("true")
    } else {
        String::from_str("false")
    }
}

/// The operand that the token at line `x_pos`, column `y_pos` denotes.
///
/// A name resolves to a variable and a literal to itself. Where the line
/// or the column does not exist the error is `MissingOperand`, where the
/// token is no operand it is `InvalidOperand`; both cite `x_pos` and
/// `y_pos`.
pub fn get_hs(organized_tokenlist: &Vec<Vec<Token>>, x_pos: usize, y_pos: usize) -> (r: Result<
    LangType,
    ParseError,
>)
    ensures
        match operand_at(
            line_at(lines_view(organized_tokenlist@), x_pos as int),
            x_pos as int,
            y_pos as int,
        ) {
            Ok(node) => r is Ok && r->Ok_0@ == node,
            Err(e) => r is Err && r->Err_0 == e,
        },
{
    if x_pos >= organized_tokenlist.len() {
        return Err(ParseError::MissingOperand { pos: x_pos, col: y_pos });
    }
    operand(&organized_tokenlist[x_pos], x_pos, y_pos)
}

/// The operand at column `col` of `line`, which is line `pos`.
fn operand(line: &Vec<Token>, pos: usize, col: usize) -> (r: Result<LangType, ParseError>)
    ensures
        match operand_at(tokens_view(line@), pos as int, col as int) {
            Ok(node) => r is Ok && r->Ok_0@ == node,
            Err(e) => r is Err && r->Err_0 == e,
        },
{
    if col >= line.len() {
        return Err(ParseError::MissingOperand { pos, col });
    }
    match &line[col] {
        Token::Ident(ident) => Ok(LangType::Var(VarType::new(ident.clone()))),
        Token::Int(value) => Ok(
            LangType::Primitive(PrimitiveType::new(value.clone(), Primitives::Int)),
        ),
        Token::String(value) => Ok(
            LangType::Primitive(PrimitiveType::new(value.clone(), Primitives::String)),
        ),
        Token::Bool(value) => Ok(
            LangType::Primitive(PrimitiveType::new(bool_string(*value), Primitives::Bool)),
        ),
        _ => Err(ParseError::InvalidOperand { pos, col }),
    }
}

/// The name at column `col` of `line`, which is line `pos`.
fn ident_at(line: &Vec<Token>, pos: usize, col: usize) -> (r: Result<String, ParseError>)
    ensures
        match name_at(tokens_view(line@), pos as int, col as int) {
            Ok(name) => r is Ok && r->Ok_0@ == name,
            Err(e) => r is Err && r->Err_0 == e,
        },
{
    if col >= line.len() {
        return Err(ParseError::MissingOperand { pos, col });
    }
    match &line[col] {
        Token::Ident(name) => Ok(name.clone()),
        _ => Err(ParseError::UnexpectedToken { pos }),
    }
}

/// `target := value`.
fn assignment(target: String, value: LangType) -> (r: LangType)
    ensures
        r@ == assign(target@, value@),
{
    LangType::Op(OpType::new(Operation::Assign, LangType::Var(VarType::new(target)), value))
}

/// An arithmetic operation: `OP dest lhs rhs`, or `OP var rhs`.
fn arith_line(op: Operation, line: &Vec<Token>, pos: usize) -> (r: Result<LangType, ParseError>)
    ensures
        match parse_arith(op, tokens_view(line@), pos as int) {
            Ok(node) => r is Ok && r->Ok_0@ == node,
            Err(e) => r is Err && r->Err_0 == e,
        },
{
    if line.len() < 3 {
        return Err(ParseError::InvalidOperation { pos });
    }
    let target = match &line[1] {
        Token::Ident(name) => name.clone(),
        _ => {
            return Err(ParseError::InvalidOperation { pos });
        },
    };
    if line.len() > 3 {
        let lhs = operand(line, pos, 2)?;
        let rhs = operand(line, pos, 3)?;
        let result = LangType::Op(OpType::new(op, lhs, rhs));
        Ok(assignment(target, result))
    } else {
        let lhs = LangType::Var(VarType::new(target.clone()));
        let rhs = operand(line, pos, 2)?;
        let result = LangType::Op(OpType::new(op, lhs, rhs));
        Ok(assignment(target, result))
    }
}

/// The arguments of a call, from column 2 up to the closing parenthesis.
fn call_params(line: &Vec<Token>, pos: usize) -> (r: Result<Vec<LangType>, ParseError>)
    requires
        line.len() >= 2,
    ensures
        match call_args(tokens_view(line@), pos as int, 2) {
            Ok(args) => r is Ok && nodes_view(r->Ok_0@) == args,
            Err(e) => r is Err && r->Err_0 == e,
        },
{
    let ghost tokens = tokens_view(line@);
    let mut param: Vec<LangType> = Vec::new();
    let mut i: usize = 2;
    assert(nodes_view(param@) + call_args(tokens, pos as int, 2)->Ok_0 =~= call_args(
        tokens,
        pos as int,
        2,
    )->Ok_0);
    while i < line.len()
        invariant
            2 <= i <= line.len(),
            tokens == tokens_view(line@),
            call_args(tokens, pos as int, 2) == nodes_after(
                nodes_view(param@),
                call_args(tokens, pos as int, i as int),
            ),
        decreases line.len() - i,
    {
        if matches!(line[i], Token::Rparen) {
            assert(nodes_view(param@) + Seq::<AstNode>::empty() =~= nodes_view(param@));
            return Ok(param);
        }
        let ghost before = param@;
        let arg = operand(line, pos, i)?;
        param.push(arg);
        proof {
            lemma_nodes_view_push(before, arg);
            let rest = call_args(tokens, pos as int, i + 1);
            if rest is Ok {
                assert(nodes_view(before) + (seq![arg@] + rest->Ok_0) =~= nodes_view(param@)
                    + rest->Ok_0);
            }
        }
        i += 1;
    }
    assert(nodes_view(param@) + Seq::<AstNode>::empty() =~= nodes_view(param@));
    Ok(param)
}

/// A line that starts with the name `name`.
fn named_line(name: &String, line: &Vec<Token>, pos: usize) -> (r: Result<LangType, ParseError>)
    requires
        line.len() > 0,
    ensures
        match parse_named(name@, tokens_view(line@), pos as int) {
            Ok(node) => r is Ok && r->Ok_0@ == node,
            Err(e) => r is Err && r->Err_0 == e,
        },
{
    let op = OpType::get_op_by_string(name.as_str());
    if !matches!(op, Operation::Error) {
        arith_line(op, line, pos)
    } else if line.len() > 1 && matches!(line[1], Token::Lparen) {
        let param = call_params(line, pos)?;
        Ok(LangType::Call(CallType::new(name.clone(), param)))
    } else {
        Err(ParseError::InvalidOperation { pos })
    }
}

/// `let NAME OPERAND`.
fn let_line(line: &Vec<Token>, pos: usize) -> (r: Result<LangType, ParseError>)
    ensures
        match parse_let(tokens_view(line@), pos as int) {
            Ok(node) => r is Ok && r->Ok_0@ == node,
            Err(e) => r is Err && r->Err_0 == e,
        },
{
    let name = ident_at(line, pos, 1)?;
    let rhs = operand(line, pos, 2)?;
    Ok(assignment(name, rhs))
}

/// `const NAME LITERAL`.
fn const_line(line: &Vec<Token>, pos: usize) -> (r: Result<LangType, ParseError>)
    ensures
        match parse_const(tokens_view(line@), pos as int) {
            Ok(node) => r is Ok && r->Ok_0@ == node,
            Err(e) => r is Err && r->Err_0 == e,
        },
{
    let name = ident_at(line, pos, 1)?;
    match operand(line, pos, 2)? {
        LangType::Primitive(prim) => Ok(LangType::Const(ConstType::new(name, prim.value))),
        _ => Err(ParseError::InvalidConstant { pos }),
    }
}

/// The parameters that the header `line` of the function `fn_name` names.
fn fn_params(line: &Vec<Token>, fn_name: &String) -> (r: Vec<VarType>)
    ensures
        param_names(r@) == header_params(tokens_view(line@), fn_name@, 0),
{
    let ghost tokens = tokens_view(line@);
    let mut params: Vec<VarType> = Vec::new();
    let mut i: usize = 0;
    assert(param_names(params@) + header_params(tokens, fn_name@, 0) =~= header_params(
        tokens,
        fn_name@,
        0,
    ));
    while i < line.len()
        invariant
            i <= line.len(),
            tokens == tokens_view(line@),
            header_params(tokens, fn_name@, 0) == param_names(params@) + header_params(
                tokens,
                fn_name@,
                i as int,
            ),
        decreases line.len() - i,
    {
        match &line[i] {
            Token::Colon => {
                assert(param_names(params@) + Seq::<Seq<char>>::empty() =~= param_names(params@));
                return params;
            },
            Token::Ident(name) => {
                let own = *name == *fn_name;
                if !own {
                    let ghost before = params@;
                    let param = VarType::new(name.clone());
                    params.push(param);
                    proof {
                        lemma_param_names_push(before, param);
                        assert(param_names(before) + (seq![name@] + header_params(
                            tokens,
                            fn_name@,
                            i + 1,
                        )) =~= param_names(params@) + header_params(tokens, fn_name@, i + 1));
                    }
                }
            },
            _ => {},
        }
        i += 1;
    }
    assert(param_names(params@) + Seq::<Seq<char>>::empty() =~= param_names(params@));
    params
}

/// The condition of `if LHS REL RHS`.
fn condition(line: &Vec<Token>, pos: usize) -> (r: Result<LangType, ParseError>)
    ensures
        match parse_condition(tokens_view(line@), pos as int) {
            Ok(node) => r is Ok && r->Ok_0@ == node,
            Err(e) => r is Err && r->Err_0 == e,
        },
{
    let lhs = operand(line, pos, 1)?;
    let rhs = operand(line, pos, 3)?;
    let op = match &line[2] {
        Token::Equal => Operation::Equal,
        Token::NotEqual => Operation::NotEqual,
        Token::LessThan => Operation::LessThan,
        Token::GreaterThan => Operation::GreaterThan,
        _ => {
            return Err(ParseError::ExpectedOperator { pos });
        },
    };
    Ok(LangType::Op(OpType::new(op, lhs, rhs)))
}

/// A cursor-driven parser over the logical lines of one source file.
#[derive(Debug)]
pub struct Parser {
    organized_tokenlist: Vec<Vec<Token>>,
}

impl View for Parser {
    type V = Seq<Seq<TokenView>>;

    closed spec fn view(&self) -> Seq<Seq<TokenView>> {
        lines_view(self.organized_tokenlist@)
    }
}

impl Parser {
    /// The logical lines that this parser reads.
    pub fn lines(&self) -> (r: &Vec<Vec<Token>>)
        ensures
            lines_view(r@) == self@,
    {
        &self.organized_tokenlist
    }

    /// A parser over lines that were cut elsewhere. They are taken as they
    /// are: a line among them that holds no token is an error when it is
    /// parsed.
    pub fn from_lines(lines: Vec<Vec<Token>>) -> (r: Self)
        ensures
            r@ == lines_view(lines@),
    {
        Self { organized_tokenlist: lines }
    }

    /// A parser over the logical lines of `tokenlist`.
    pub fn new(tokenlist: Vec<Token>) -> (r: Self)
        ensures
            r@ == split_lines(tokens_view(tokenlist@)),
            are_logical_lines(r@),
    {
        Self { organized_tokenlist: organize_tokenlist(tokenlist.as_slice()) }
    }

    /// The syntax tree of the whole file: the top-level nodes in order.
    ///
    /// Fails with the error of the first line that is wrong; nothing is
    /// returned of what was parsed before it.
    pub fn parse_file(&mut self) -> (r: Result<Vec<LangType>, ParseError>)
        ensures
            final(self)@ == old(self)@,
            match parse_file_spec(old(self)@) {
                Ok(nodes) => r is Ok && nodes_view(r->Ok_0@) == nodes,
                Err(e) => r is Err && r->Err_0 == e,
            },
    {
        let max_pos = self.organized_tokenlist.len();
        let mut ast: Vec<LangType> = Vec::new();
        let mut pos: usize = 0;
        assert(nodes_view(ast@) + parse_from(self@, 0)->Ok_0 =~= parse_from(self@, 0)->Ok_0);
        while pos < max_pos
            invariant
                *self == *old(self),
                max_pos == self@.len(),
                pos <= max_pos,
                parse_from(self@, 0) == nodes_after(nodes_view(ast@), parse_from(self@, pos as int)),
            decreases max_pos - pos,
        {
            let lang_t = self.parse_line(pos)?;
            if matches!(lang_t.lang_t, LangType::Eof) {
                assert(nodes_view(ast@) + Seq::<AstNode>::empty() =~= nodes_view(ast@));
                return Ok(ast);
            }
            let ghost before = ast@;
            let ghost rest = parse_from(self@, lang_t.pos + 1);
            ast.push(lang_t.lang_t);
            proof {
                lemma_nodes_view_push(before, lang_t.lang_t);
                if rest is Ok {
                    assert(nodes_view(before) + (seq![lang_t.lang_t@] + rest->Ok_0) =~= nodes_view(
                        ast@,
                    ) + rest->Ok_0);
                }
            }
            if lang_t.pos >= max_pos {
                assert(nodes_view(ast@) + Seq::<AstNode>::empty() =~= nodes_view(ast@));
                return Ok(ast);
            }
            pos = lang_t.pos + 1;
        }
        assert(nodes_view(ast@) + Seq::<AstNode>::empty() =~= nodes_view(ast@));
        Ok(ast)
    }

    /// The node that stands at line `pos`, with the position of the line
    /// on which it ends. Past the last line stands `Eof`.
    pub fn parse_line(&self, pos: usize) -> (r: Result<ParserResult, ParseError>)
        ensures
            match parse_line_spec(self@, pos as int) {
                Ok(parsed) => r is Ok && r->Ok_0.lang_t@ == parsed.node && r->Ok_0.pos == pos
                    + parsed.extra,
                Err(e) => r is Err && r->Err_0 == e,
            },
            r is Ok && pos <= self@.len() ==> r->Ok_0.pos <= self@.len(),
        decreases lines_left(self@, pos as int), 0nat,
    {
        if pos >= self.organized_tokenlist.len() {
            return Ok(ParserResult::new(LangType::Eof, pos));
        }
        let line = &self.organized_tokenlist[pos];
        if line.len() == 0 {
            return Err(ParseError::EmptyLine { pos });
        }
        assert(self@[pos as int] == tokens_view(line@));
        match &line[0] {
            Token::Ident(op_name) => {
                let node = named_line(op_name, line, pos)?;
                Ok(ParserResult::new(node, pos))
            },
            Token::Let => {
                let node = let_line(line, pos)?;
                Ok(ParserResult::new(node, pos))
            },
            Token::Const => {
                let node = const_line(line, pos)?;
                Ok(ParserResult::new(node, pos))
            },
            Token::Function => {
                let fn_name = ident_at(line, pos, 1)?;
                let params = fn_params(line, &fn_name);
                let body = self.parse_body(pos + 1, false)?;
                Ok(
                    ParserResult::new(
                        LangType::Func(FuncType::new(fn_name, params, body.nodes)),
                        body.end,
                    ),
                )
            },
            Token::If => {
                let cond = condition(line, pos)?;
                let body = self.parse_body(pos + 1, true)?;
                if matches!(body.closer, LangType::Else) {
                    let resume = if body.end < self.organized_tokenlist.len() {
                        body.end + 1
                    } else {
                        self.organized_tokenlist.len()
                    };
                    let else_body = self.parse_body(resume, false)?;
                    Ok(
                        ParserResult::new(
                            LangType::If(IfType::new(cond, body.nodes, else_body.nodes)),
                            else_body.end,
                        ),
                    )
                } else {
                    let else_body: Vec<LangType> = Vec::new();
                    assert(nodes_view(else_body@) =~= Seq::<AstNode>::empty());
                    Ok(
                        ParserResult::new(
                            LangType::If(IfType::new(cond, body.nodes, else_body)),
                            body.end,
                        ),
                    )
                }
            },
            Token::Comment(c) => Ok(ParserResult::new(LangType::Comment(c.clone()), pos)),
            Token::End => Ok(ParserResult::new(LangType::End, pos)),
            Token::Eof => Ok(ParserResult::new(LangType::Eof, pos)),
            _ => Err(ParseError::UnexpectedToken { pos }),
        }
    }

    /// The block that starts at line `start`.
    fn parse_body(&self, start: usize, stop_at_else: bool) -> (r: Result<Body, ParseError>)
        requires
            start <= self@.len(),
        ensures
            match parse_block(self@, start as int, stop_at_else) {
                Ok(block) => r is Ok && nodes_view(r->Ok_0.nodes@) == block.nodes
                    && r->Ok_0.closer@ == block.closer && r->Ok_0.end == start + block.extra
                    && r->Ok_0.end <= self@.len(),
                Err(e) => r is Err && r->Err_0 == e,
            },
        decreases lines_left(self@, start as int), 1nat,
    {
        let len = self.organized_tokenlist.len();
        let mut nodes: Vec<LangType> = Vec::new();
        let mut cur = start;
        assert(nodes_view(nodes@) + parse_block(self@, start as int, stop_at_else)->Ok_0.nodes
            =~= parse_block(self@, start as int, stop_at_else)->Ok_0.nodes);
        loop
            invariant
                len == self@.len(),
                start <= cur <= len,
                parse_block(self@, start as int, stop_at_else) == block_after(
                    nodes_view(nodes@),
                    cur - start,
                    parse_block(self@, cur as int, stop_at_else),
                ),
            decreases len - cur,
        {
            if cur >= len {
                assert(nodes_view(nodes@) + Seq::<AstNode>::empty() =~= nodes_view(nodes@));
                return Ok(Body { nodes, closer: LangType::Eof, end: cur });
            }
            let parsed = self.parse_line(cur)?;
            let closing = match &parsed.lang_t {
                LangType::End => true,
                LangType::Eof => true,
                LangType::Else => stop_at_else,
                _ => false,
            };
            if closing {
                assert(nodes_view(nodes@) + Seq::<AstNode>::empty() =~= nodes_view(nodes@));
                return Ok(Body { nodes, closer: parsed.lang_t, end: parsed.pos });
            }
            let resume = if parsed.pos < len {
                parsed.pos + 1
            } else {
                len
            };
            let ghost before = nodes@;
            let ghost rest = parse_block(self@, resume as int, stop_at_else);
            nodes.push(parsed.lang_t);
            proof {
                lemma_nodes_view_push(before, parsed.lang_t);
                if rest is Ok {
                    assert(nodes_view(before) + (seq![parsed.lang_t@] + rest->Ok_0.nodes)
                        =~= nodes_view(nodes@) + rest->Ok_0.nodes);
                }
            }
            cur = resume;
        }
    }
}

/// The logical lines of `tokenlist`: its tokens cut at each `NewLine`,
/// blank lines dropped, and with them whatever follows the last `NewLine`.
pub fn organize_tokenlist(tokenlist: &[Token]) -> (r: Vec<Vec<Token>>)
    ensures
        lines_view(r@) == split_lines(tokens_view(tokenlist@)),
        are_logical_lines(lines_view(r@)),
        r@.len() == count_lines(tokens_view(tokenlist@), tokenlist@.len()),
{
    let ghost all = tokens_view(tokenlist@);
    let ghost mut start: int = 0;
    let mut organized_list: Vec<Vec<Token>> = Vec::new();
    let mut level: Vec<Token> = Vec::new();
    let mut i: usize = 0;
    proof {
        assert(all.subrange(0, all.len() as int) =~= all);
        assert(lines_view(organized_list@) + split_lines(all) =~= split_lines(all));
        assert(tokens_view(level@) =~= all.subrange(0, 0));
    }
    while i < tokenlist.len()
        invariant
            all == tokens_view(tokenlist@),
            0 <= start <= i <= tokenlist.len(),
            tokens_view(level@) == all.subrange(start, i as int),
            forall|j: int| start <= j < i ==> !(#[trigger] all[j] is NewLine),
            split_lines(all) == lines_view(organized_list@) + split_lines(
                all.subrange(start, all.len() as int),
            ),
        decreases tokenlist.len() - i,
    {
        let ghost tail = all.subrange(start, all.len() as int);
        let token = &tokenlist[i];
        if matches!(token, Token::NewLine) {
            proof {
                assert(all[i as int] is NewLine);
                assert forall|j: int| 0 <= j < i - start implies !(#[trigger] tail[j]
                    is NewLine) by {
                    assert(tail[j] == all[start + j]);
                }
                assert(tail[i - start] == all[i as int]);
                lemma_line_len(tail, i - start);
                assert(tail.subrange(i - start + 1, tail.len() as int) =~= all.subrange(
                    i + 1,
                    all.len() as int,
                ));
                assert(tail.subrange(0, i - start) =~= all.subrange(start, i as int));
            }
            if level.len() > 0 {
                let ghost before = organized_list@;
                let ghost line = level@;
                organized_list.push(level);
                level = Vec::new();
                proof {
                    let next = split_lines(all.subrange(i + 1, all.len() as int));
                    assert(lines_view(organized_list@) =~= lines_view(before).push(
                        tokens_view(line),
                    ));
                    assert(lines_view(before) + (seq![tokens_view(line)] + next) =~= lines_view(
                        organized_list@,
                    ) + next);
                }
            }
            proof {
                start = i + 1;
                assert(tokens_view(level@) =~= all.subrange(start, i + 1));
            }
        } else {
            let ghost before = level@;
            level.push(token.clone());
            proof {
                assert(!(all[i as int] is NewLine));
                assert(tokens_view(before).len() == before.len());
                assert(level@ == before.push(*token));
                assert forall|k: int| 0 <= k < level@.len() implies tokens_view(level@)[k]
                    == all.subrange(start, i + 1)[k] by {
                    if k < before.len() {
                        assert(tokens_view(before)[k] == all.subrange(start, i as int)[k]);
                    }
                }
                assert(tokens_view(level@) =~= all.subrange(start, i + 1));
            }
        }
        i += 1;
    }
    proof {
        let tail = all.subrange(start, all.len() as int);
        assert forall|j: int| 0 <= j < tail.len() implies !(#[trigger] tail[j] is NewLine) by {
            assert(tail[j] == all[start + j]);
        }
        lemma_line_len(tail, tail.len() as int);
        assert(lines_view(organized_list@) + Seq::<Seq<TokenView>>::empty() =~= lines_view(
            organized_list@,
        ));
        lemma_split_lines_logical(all);
        lemma_split_lines_count(all);
    }
    organized_list
}

} // verus!
