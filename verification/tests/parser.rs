use linescript::grammar::ParseError;
use linescript::lexer::{LexError, Lexer, Token};
use linescript::parser::{get_hs, organize_tokenlist, Parser, ParserResult};
use linescript::types::call_type::CallType;
use linescript::types::const_type::ConstType;
use linescript::types::func_type::FuncType;
use linescript::types::if_type::IfType;
use linescript::types::lang_type::LangType;
use linescript::types::op_type::{OpType, Operation};
use linescript::types::primitive_type::{PrimitiveType, Primitives};
use linescript::types::var_type::VarType;

fn lex(input: &str) -> Vec<Token> {
    Lexer::new(input.to_string()).collect().unwrap()
}

fn parse(input: &str) -> Result<Vec<LangType>, ParseError> {
    Parser::new(lex(input)).parse_file()
}

fn var(name: &str) -> LangType {
    LangType::Var(VarType::new(name.to_string()))
}

fn lit(value: &str, kind: Primitives) -> LangType {
    LangType::Primitive(PrimitiveType::new(value.to_string(), kind))
}

fn num(value: &str) -> LangType {
    lit(value, Primitives::Int)
}

fn op(operation: Operation, lhs: LangType, rhs: LangType) -> LangType {
    LangType::Op(OpType::new(operation, lhs, rhs))
}

fn assign(name: &str, value: LangType) -> LangType {
    op(Operation::Assign, var(name), value)
}

fn func(name: &str, params: &[&str], body: Vec<LangType>) -> LangType {
    let params = params.iter().map(|p| VarType::new(p.to_string())).collect();
    LangType::Func(FuncType::new(name.to_string(), params, body))
}

fn cond(condition: LangType, body: Vec<LangType>, else_body: Vec<LangType>) -> LangType {
    LangType::If(IfType::new(condition, body, else_body))
}

fn call(name: &str, params: Vec<LangType>) -> LangType {
    LangType::Call(CallType::new(name.to_string(), params))
}

#[test]
fn parse_string() {
    let input = r#"fn main x y:
        let a 5
        if a != 4:
            add a a 6
            print(a)
        end
    end"#;

    let _tokens = vec![
        Token::Function,
        Token::Ident(String::from("main")),
        Token::Colon,
        Token::NewLine,
        Token::Let,
        Token::Ident(String::from("a")),
        Token::Int(String::from("5")),
        Token::NewLine,
        Token::If,
        Token::Ident(String::from("a")),
        Token::NotEqual,
        Token::Int(String::from("4")),
        Token::Colon,
        Token::NewLine,
        Token::Ident(String::from("Add")),
        Token::Ident(String::from("a")),
        Token::Int(String::from("6")),
        Token::NewLine,
        Token::End,
        Token::NewLine,
        Token::End,
        Token::NewLine,
        Token::Eof,
        Token::NewLine,
    ];

    let lex: Result<Vec<Token>, LexError> = Lexer::new(input.into()).collect();
    let lex = lex.unwrap();

    let mut par = Parser::new(lex.clone());

    println!("{:?}", lex);
    println!("{:?}", par.lines());
    let ast = par.parse_file();
    println!("{:?}", ast);

    assert_eq!(
        ast,
        Ok(vec![func(
            "main",
            &["x", "y"],
            vec![
                assign("a", num("5")),
                cond(
                    op(Operation::NotEqual, var("a"), num("4")),
                    vec![
                        assign("a", op(Operation::Add, var("a"), num("6"))),
                        call("print", vec![var("a")]),
                    ],
                    vec![],
                ),
            ],
        )])
    );
}

#[test]
fn parser_parse_string() {
    let input = r#"fn main:
        let a 5
        if a != 4:
            add a a 6
        end
    end"#;

    let _tokens = vec![
        Token::Function,
        Token::Ident(String::from("main")),
        Token::Colon,
        Token::NewLine,
        Token::Let,
        Token::Ident(String::from("a")),
        Token::Int(String::from("5")),
        Token::NewLine,
        Token::If,
        Token::Ident(String::from("a")),
        Token::NotEqual,
        Token::Int(String::from("4")),
        Token::Colon,
        Token::NewLine,
        Token::Ident(String::from("Add")),
        Token::Ident(String::from("a")),
        Token::Int(String::from("6")),
        Token::NewLine,
        Token::End,
        Token::NewLine,
        Token::End,
        Token::NewLine,
        Token::Eof,
        Token::NewLine,
    ];

    let mut lex = Lexer::new(input.into());

    let mut par = Parser::new(lex.collect().unwrap());

    println!("{:?}", par.lines());
    let ast = par.parse_file();
    println!("{:?}", ast);

    assert_eq!(par.lines().len(), 5);
    assert_eq!(ast.unwrap().len(), 1);
}

#[test]
fn function_with_nested_if() {
    let ast = parse("fn main:\nlet a 5\nif a != 4:\nadd a a 6\nend\nend");
    assert_eq!(
        ast,
        Ok(vec![func(
            "main",
            &[],
            vec![
                assign("a", num("5")),
                cond(
                    op(Operation::NotEqual, var("a"), num("4")),
                    vec![assign("a", op(Operation::Add, var("a"), num("6")))],
                    vec![],
                ),
            ],
        )])
    );
}

#[test]
fn terminated_input_gives_the_same_tree() {
    assert_eq!(
        parse("fn main:\nlet a 5\nif a != 4:\nadd a a 6\nend\nend\n"),
        parse("fn main:\nlet a 5\nif a != 4:\nadd a a 6\nend\nend")
    );
}

#[test]
fn accumulate_reads_the_variable_as_left_operand() {
    let mut parser = Parser::new(lex("add x 2\n"));
    assert_eq!(
        parser.parse_line(0),
        Ok(ParserResult::new(
            assign("x", op(Operation::Add, var("x"), num("2"))),
            0
        ))
    );
    assert_eq!(
        parser.parse_file(),
        Ok(vec![assign("x", op(Operation::Add, var("x"), num("2")))])
    );
}

#[test]
fn three_address_form_names_its_destination() {
    assert_eq!(
        parse("sub d a 1\nmul d 2 b\ndiv d \"s\" true\nmod d a b c\n"),
        Ok(vec![
            assign("d", op(Operation::Sub, var("a"), num("1"))),
            assign("d", op(Operation::Mul, num("2"), var("b"))),
            assign(
                "d",
                op(
                    Operation::Div,
                    lit("s", Primitives::String),
                    lit("true", Primitives::Bool)
                )
            ),
            assign("d", op(Operation::Mod, var("a"), var("b"))),
        ])
    );
}

#[test]
fn operator_names_are_case_sensitive() {
    assert_eq!(
        parse("Add a a 6\n"),
        Err(ParseError::InvalidOperation { pos: 0 })
    );
    assert_eq!(OpType::get_op_by_string("add"), Operation::Add);
    assert_eq!(OpType::get_op_by_string("sub"), Operation::Sub);
    assert_eq!(OpType::get_op_by_string("mul"), Operation::Mul);
    assert_eq!(OpType::get_op_by_string("div"), Operation::Div);
    assert_eq!(OpType::get_op_by_string("mod"), Operation::Mod);
    assert_eq!(OpType::get_op_by_string("ADD"), Operation::Error);
    assert_eq!(OpType::get_op_by_string("ad"), Operation::Error);
    assert_eq!(OpType::get_op_by_string("addd"), Operation::Error);
    assert_eq!(OpType::get_op_by_string(""), Operation::Error);
    assert!(OpType::is_op("mod"));
    assert!(!OpType::is_op("move"));
}

#[test]
fn unsupported_condition_operator_is_an_error() {
    assert_eq!(
        parse("if a ? 4:\n"),
        Err(ParseError::ExpectedOperator { pos: 0 })
    );
    assert_eq!(
        parse("let a 1\nif a ! 4:\nend\n"),
        Err(ParseError::ExpectedOperator { pos: 1 })
    );
}

#[test]
fn condition_operators() {
    let relation = |text: &str| match parse(text).unwrap().remove(0) {
        LangType::If(node) => match *node.condition {
            LangType::Op(cond) => cond.op,
            _ => Operation::Error,
        },
        _ => Operation::Error,
    };
    assert_eq!(relation("if a = 4:\nend\n"), Operation::Equal);
    assert_eq!(relation("if a != 4:\nend\n"), Operation::NotEqual);
    assert_eq!(relation("if a < 4:\nend\n"), Operation::LessThan);
    assert_eq!(relation("if a > 4:\nend\n"), Operation::GreaterThan);
}

#[test]
fn condition_operands_come_before_the_operator() {
    assert_eq!(
        parse("if ( ? 4:\n"),
        Err(ParseError::InvalidOperand { pos: 0, col: 1 })
    );
    assert_eq!(
        parse("if a ? ):\n"),
        Err(ParseError::InvalidOperand { pos: 0, col: 3 })
    );
    assert_eq!(
        parse("if a <\n"),
        Err(ParseError::MissingOperand { pos: 0, col: 3 })
    );
    assert_eq!(
        parse("if\n"),
        Err(ParseError::MissingOperand { pos: 0, col: 1 })
    );
}

#[test]
fn let_binds_an_operand() {
    assert_eq!(
        parse("let a 5\nlet b a\nlet c \"s\"\nlet d false\n"),
        Ok(vec![
            assign("a", num("5")),
            assign("b", var("a")),
            assign("c", lit("s", Primitives::String)),
            assign("d", lit("false", Primitives::Bool)),
        ])
    );
}

#[test]
fn let_errors() {
    assert_eq!(
        parse("let 5 3\n"),
        Err(ParseError::UnexpectedToken { pos: 0 })
    );
    assert_eq!(
        parse("let\n"),
        Err(ParseError::MissingOperand { pos: 0, col: 1 })
    );
    assert_eq!(
        parse("let a\n"),
        Err(ParseError::MissingOperand { pos: 0, col: 2 })
    );
    assert_eq!(
        parse("let a (\n"),
        Err(ParseError::InvalidOperand { pos: 0, col: 2 })
    );
}

#[test]
fn const_takes_a_literal() {
    assert_eq!(
        parse("const msg \"Hello, world!\"\nconst n 7\nconst t true\n"),
        Ok(vec![
            LangType::Const(ConstType::new("msg".to_string(), "Hello, world!".to_string())),
            LangType::Const(ConstType::new("n".to_string(), "7".to_string())),
            LangType::Const(ConstType::new("t".to_string(), "true".to_string())),
        ])
    );
}

#[test]
fn const_errors() {
    assert_eq!(
        parse("let a 1\nconst c a\n"),
        Err(ParseError::InvalidConstant { pos: 1 })
    );
    assert_eq!(
        parse("const 1 1\n"),
        Err(ParseError::UnexpectedToken { pos: 0 })
    );
    assert_eq!(
        parse("const c\n"),
        Err(ParseError::MissingOperand { pos: 0, col: 2 })
    );
    assert_eq!(
        parse("const c :\n"),
        Err(ParseError::InvalidOperand { pos: 0, col: 2 })
    );
}

#[test]
fn arithmetic_errors() {
    assert_eq!(
        parse("add\n"),
        Err(ParseError::InvalidOperation { pos: 0 })
    );
    assert_eq!(
        parse("add x\n"),
        Err(ParseError::InvalidOperation { pos: 0 })
    );
    assert_eq!(
        parse("add 1 2\n"),
        Err(ParseError::InvalidOperation { pos: 0 })
    );
    assert_eq!(
        parse("add 1 2 3\n"),
        Err(ParseError::InvalidOperation { pos: 0 })
    );
    assert_eq!(
        parse("add x :\n"),
        Err(ParseError::InvalidOperand { pos: 0, col: 2 })
    );
    assert_eq!(
        parse("add x : )\n"),
        Err(ParseError::InvalidOperand { pos: 0, col: 2 })
    );
    assert_eq!(
        parse("add x 1 )\n"),
        Err(ParseError::InvalidOperand { pos: 0, col: 3 })
    );
}

#[test]
fn calls() {
    assert_eq!(parse("f(\n"), Ok(vec![call("f", vec![])]));
    assert_eq!(
        parse("print(a)\nf()\ng(1 \"s\" true x)\nh(a) b\nk(a\n"),
        Ok(vec![
            call("print", vec![var("a")]),
            call("f", vec![]),
            call(
                "g",
                vec![
                    num("1"),
                    lit("s", Primitives::String),
                    lit("true", Primitives::Bool),
                    var("x"),
                ]
            ),
            call("h", vec![var("a")]),
            call("k", vec![var("a")]),
        ])
    );
}

#[test]
fn call_errors() {
    assert_eq!(
        parse("f(a ( b)\n"),
        Err(ParseError::InvalidOperand { pos: 0, col: 3 })
    );
    assert_eq!(
        parse("f(: ()\n"),
        Err(ParseError::InvalidOperand { pos: 0, col: 2 })
    );
    assert_eq!(
        parse("print\n"),
        Err(ParseError::InvalidOperation { pos: 0 })
    );
    assert_eq!(
        parse("print )\n"),
        Err(ParseError::InvalidOperation { pos: 0 })
    );
    assert_eq!(
        parse("move x 1\n"),
        Err(ParseError::InvalidOperation { pos: 0 })
    );
    assert_eq!(
        parse("let a 1\nprint a\n"),
        Err(ParseError::InvalidOperation { pos: 1 })
    );
}

#[test]
fn function_parameters() {
    assert_eq!(
        parse("fn f a b:\nend\n"),
        Ok(vec![func("f", &["a", "b"], vec![])])
    );
    // The function's own name is no parameter, and what follows the colon
    // is not looked at.
    assert_eq!(
        parse("fn f a f b: c\nend\n"),
        Ok(vec![func("f", &["a", "b"], vec![])])
    );
    // Tokens that are no names are passed over.
    assert_eq!(
        parse("fn f 1 a ( b\nend\n"),
        Ok(vec![func("f", &["a", "b"], vec![])])
    );
}

#[test]
fn function_errors() {
    assert_eq!(
        parse("fn\n"),
        Err(ParseError::MissingOperand { pos: 0, col: 1 })
    );
    assert_eq!(
        parse("fn 1:\nend\n"),
        Err(ParseError::UnexpectedToken { pos: 0 })
    );
    assert_eq!(
        parse("fn f:\nlet a 1\nlet\nend\n"),
        Err(ParseError::MissingOperand { pos: 2, col: 1 })
    );
}

#[test]
fn comments_are_nodes() {
    assert_eq!(
        parse("# top\nfn f:\n# inside\nlet a 1\nend\n"),
        Ok(vec![
            LangType::Comment(" top".to_string()),
            func(
                "f",
                &[],
                vec![LangType::Comment(" inside".to_string()), assign("a", num("1"))]
            ),
        ])
    );
}

#[test]
fn several_functions() {
    assert_eq!(
        parse("fn f:\nlet a 1\nend\nconst c 2\nfn g x:\nadd x 1\nend\n"),
        Ok(vec![
            func("f", &[], vec![assign("a", num("1"))]),
            LangType::Const(ConstType::new("c".to_string(), "2".to_string())),
            func(
                "g",
                &["x"],
                vec![assign("x", op(Operation::Add, var("x"), num("1")))]
            ),
        ])
    );
}

#[test]
fn blank_lines_are_skipped() {
    assert_eq!(
        parse("\n\nfn f:\n\n   \nlet a 1\n\nend\n\n"),
        Ok(vec![func("f", &[], vec![assign("a", num("1"))])])
    );
}

#[test]
fn the_end_of_input_closes_open_blocks() {
    assert_eq!(
        parse("fn f:\nlet a 1\n"),
        Ok(vec![func("f", &[], vec![assign("a", num("1"))])])
    );
    assert_eq!(
        parse("fn f:\nif a < 1:\nlet b 2\n"),
        Ok(vec![func(
            "f",
            &[],
            vec![cond(
                op(Operation::LessThan, var("a"), num("1")),
                vec![assign("b", num("2"))],
                vec![]
            )]
        )])
    );
    assert_eq!(parse("fn f:\n"), Ok(vec![func("f", &[], vec![])]));
    assert_eq!(
        parse("fn f:\nfn g:\nfn h:\n"),
        Ok(vec![func(
            "f",
            &[],
            vec![func("g", &[], vec![func("h", &[], vec![])])]
        )])
    );
}

#[test]
fn end_positions() {
    let parser = Parser::new(lex("fn f:\nif a < 1:\nlet b 2\nend\nend\nlet c 3\n"));
    assert_eq!(parser.parse_line(0).unwrap().pos, 4);
    assert_eq!(parser.parse_line(1).unwrap().pos, 3);
    assert_eq!(parser.parse_line(2).unwrap().pos, 2);
    assert_eq!(
        parser.parse_line(3),
        Ok(ParserResult::new(LangType::End, 3))
    );
    assert_eq!(parser.parse_line(5).unwrap().pos, 5);
    assert_eq!(
        parser.parse_line(6),
        Ok(ParserResult::new(LangType::Eof, 6))
    );
    assert_eq!(
        parser.parse_line(9),
        Ok(ParserResult::new(LangType::Eof, 9))
    );

    // A block that the end of the input closes ends at the number of lines.
    let open = Parser::new(lex("fn f:\nfn g:\nlet a 1\n"));
    assert_eq!(open.parse_line(0).unwrap().pos, 3);
    assert_eq!(open.parse_line(1).unwrap().pos, 3);
}

#[test]
fn an_end_outside_a_block_is_kept() {
    assert_eq!(parse("end\n"), Ok(vec![LangType::End]));
    assert_eq!(
        parse("let a 1\nend\nlet b 2\n"),
        Ok(vec![assign("a", num("1")), LangType::End, assign("b", num("2"))])
    );
}

#[test]
fn an_eof_token_ends_the_file() {
    let tokens = vec![
        Token::Let,
        Token::Ident("a".to_string()),
        Token::Int("1".to_string()),
        Token::NewLine,
        Token::Eof,
        Token::NewLine,
        Token::Let,
        Token::Ident("b".to_string()),
        Token::Int("2".to_string()),
        Token::NewLine,
    ];
    assert_eq!(
        Parser::new(tokens).parse_file(),
        Ok(vec![assign("a", num("1"))])
    );
}

#[test]
fn an_eof_token_closes_a_block() {
    let tokens = vec![
        Token::Function,
        Token::Ident("f".to_string()),
        Token::Colon,
        Token::NewLine,
        Token::Eof,
        Token::NewLine,
        Token::Let,
        Token::Ident("b".to_string()),
        Token::Int("2".to_string()),
        Token::NewLine,
    ];
    assert_eq!(
        Parser::new(tokens).parse_file(),
        Ok(vec![func("f", &[], vec![]), assign("b", num("2"))])
    );
}

#[test]
fn unexpected_leading_tokens() {
    assert_eq!(parse("5\n"), Err(ParseError::UnexpectedToken { pos: 0 }));
    assert_eq!(parse("\"s\"\n"), Err(ParseError::UnexpectedToken { pos: 0 }));
    assert_eq!(parse("(\n"), Err(ParseError::UnexpectedToken { pos: 0 }));
    assert_eq!(
        parse("return a\n"),
        Err(ParseError::UnexpectedToken { pos: 0 })
    );
    assert_eq!(
        parse("let a 1\nlet b 2\n?\n"),
        Err(ParseError::UnexpectedToken { pos: 2 })
    );
}

#[test]
fn an_else_line_is_unexpected() {
    assert_eq!(
        parse("if a < 1:\nlet b 2\nelse:\nlet b 3\nend\n"),
        Err(ParseError::UnexpectedToken { pos: 2 })
    );
}

#[test]
fn an_error_inside_a_block_fails_the_file() {
    assert_eq!(
        parse("fn f:\nlet a 1\nif a < 1:\nlet b\nend\nend\n"),
        Err(ParseError::MissingOperand { pos: 3, col: 2 })
    );
}

#[test]
fn empty_input_is_an_empty_tree() {
    assert_eq!(parse(""), Ok(vec![]));
    assert_eq!(parse("\n\n"), Ok(vec![]));
    assert_eq!(parse("let a 1"), Ok(vec![]));
}

#[test]
fn operand_resolution() {
    let lines = organize_tokenlist(&lex("a 7 \"s\" true false ( \n"));
    assert_eq!(get_hs(&lines, 0, 0), Ok(var("a")));
    assert_eq!(get_hs(&lines, 0, 1), Ok(num("7")));
    assert_eq!(get_hs(&lines, 0, 2), Ok(lit("s", Primitives::String)));
    assert_eq!(get_hs(&lines, 0, 3), Ok(lit("true", Primitives::Bool)));
    assert_eq!(get_hs(&lines, 0, 4), Ok(lit("false", Primitives::Bool)));
    assert_eq!(
        get_hs(&lines, 0, 5),
        Err(ParseError::InvalidOperand { pos: 0, col: 5 })
    );
    assert_eq!(
        get_hs(&lines, 0, 6),
        Err(ParseError::MissingOperand { pos: 0, col: 6 })
    );
    assert_eq!(
        get_hs(&lines, 1, 0),
        Err(ParseError::MissingOperand { pos: 1, col: 0 })
    );
}

#[test]
fn parsing_leaves_the_lines_alone() {
    let mut parser = Parser::new(lex("fn f:\nlet a 1\nend\n"));
    let before = parser.lines().clone();
    let first = parser.parse_file();
    assert_eq!(parser.lines(), &before);
    assert_eq!(parser.parse_file(), first);
}

#[test]
fn a_line_without_tokens_is_an_error() {
    let lines = vec![
        vec![Token::Let, Token::Ident("a".to_string()), Token::Int("1".to_string())],
        vec![],
    ];
    let mut parser = Parser::from_lines(lines.clone());
    assert_eq!(parser.lines(), &lines);
    assert_eq!(parser.parse_line(1), Err(ParseError::EmptyLine { pos: 1 }));
    assert_eq!(parser.parse_file(), Err(ParseError::EmptyLine { pos: 1 }));

    let mut inside = Parser::from_lines(vec![
        vec![Token::Function, Token::Ident("f".to_string()), Token::Colon],
        vec![],
        vec![Token::End],
    ]);
    assert_eq!(inside.parse_file(), Err(ParseError::EmptyLine { pos: 1 }));
}

#[test]
fn given_lines_parse_like_organized_ones() {
    let tokens = lex("fn f a:\nadd a 1\nend\n");
    let lines = organize_tokenlist(&tokens);
    assert_eq!(
        Parser::from_lines(lines).parse_file(),
        Parser::new(tokens).parse_file()
    );
}
