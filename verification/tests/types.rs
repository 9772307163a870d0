use linescript::ast::AstTree;
use linescript::lexer::{Lexer, Token};
use linescript::parser::{organize_tokenlist, Parser};
use linescript::text::same_text;
use linescript::types::call_type::CallType;
use linescript::types::const_type::ConstType;
use linescript::types::func_type::FuncType;
use linescript::types::if_type::IfType;
use linescript::types::lang_type::{copy_node, copy_nodes, copy_params, LangType};
use linescript::types::op_type::{OpType, Operation};
use linescript::types::primitive_type::{PrimitiveType, Primitives};
use linescript::types::var_type::VarType;

fn lex(input: &str) -> Vec<Token> {
    Lexer::new(input.to_string()).collect().unwrap()
}

fn sample() -> Vec<LangType> {
    Parser::new(lex(
        "const c \"s\"\nfn f a b:\n# note\nlet x 1\nif x < a:\nadd x b\nprint(x 2 true)\nend\nend\n",
    ))
    .parse_file()
    .unwrap()
}

#[test]
fn constructors_keep_their_arguments() {
    let prim = PrimitiveType::new("7".to_string(), Primitives::Int);
    assert_eq!(prim.value, "7");
    assert_eq!(prim.primitive, Primitives::Int);

    let var = VarType::new("x".to_string());
    assert_eq!(var.name, "x");

    let con = ConstType::new("c".to_string(), "1".to_string());
    assert_eq!(con.name, "c");
    assert_eq!(con.value, "1");

    let op = OpType::new(
        Operation::Add,
        LangType::Var(var.clone()),
        LangType::Primitive(prim.clone()),
    );
    assert_eq!(op.op, Operation::Add);
    assert_eq!(*op.lhs, LangType::Var(var.clone()));
    assert_eq!(*op.rhs, LangType::Primitive(prim.clone()));

    let call = CallType::new("f".to_string(), vec![LangType::Var(var.clone())]);
    assert_eq!(call.name, "f");
    assert_eq!(call.param, vec![LangType::Var(var.clone())]);

    let func = FuncType::new(
        "g".to_string(),
        vec![var.clone()],
        vec![LangType::Call(call.clone())],
    );
    assert_eq!(func.name, "g");
    assert_eq!(func.param, vec![var.clone()]);
    assert_eq!(func.body, vec![LangType::Call(call.clone())]);

    let cond = IfType::new(
        LangType::Op(op.clone()),
        vec![LangType::End],
        vec![LangType::Eof],
    );
    assert_eq!(*cond.condition, LangType::Op(op));
    assert_eq!(cond.body, vec![LangType::End]);
    assert_eq!(cond.else_body, vec![LangType::Eof]);
}

#[test]
fn defaults_are_empty() {
    assert_eq!(
        PrimitiveType::default(),
        PrimitiveType::new(String::new(), Primitives::Int)
    );
    assert_eq!(VarType::default(), VarType::new(String::new()));
    assert_eq!(
        ConstType::default(),
        ConstType::new(String::new(), String::new())
    );
    assert_eq!(
        OpType::default(),
        OpType::new(Operation::Assign, LangType::Undefined, LangType::Undefined)
    );
    assert_eq!(CallType::default(), CallType::new(String::new(), vec![]));
    assert_eq!(
        FuncType::default(),
        FuncType::new(String::new(), vec![], vec![])
    );
    assert_eq!(
        IfType::default(),
        IfType::new(LangType::Undefined, vec![], vec![])
    );
}

#[test]
fn literal_kinds() {
    let int = PrimitiveType::new("1".to_string(), Primitives::Int);
    let string = PrimitiveType::new("1".to_string(), Primitives::String);
    let boolean = PrimitiveType::new("true".to_string(), Primitives::Bool);
    assert!(int.is_int() && !int.is_string() && !int.is_bool());
    assert!(!string.is_int() && string.is_string() && !string.is_bool());
    assert!(!boolean.is_int() && !boolean.is_string() && boolean.is_bool());
}

#[test]
fn a_cloned_tree_equals_its_source() {
    let ast = sample();
    assert_eq!(ast.len(), 2);
    assert_eq!(ast.clone(), ast);
    assert_eq!(copy_nodes(&ast), ast);
    for node in &ast {
        assert_eq!(&copy_node(node), node);
        assert_eq!(&node.clone(), node);
    }
    match &ast[1] {
        LangType::Func(func) => {
            assert_eq!(&func.clone(), func);
            assert_eq!(copy_params(&func.param), func.param);
            assert_eq!(func.body.len(), 3);
            match &func.body[2] {
                LangType::If(cond) => {
                    assert_eq!(&cond.clone(), cond);
                    match &cond.body[0] {
                        LangType::Op(op) => assert_eq!(&op.clone(), op),
                        other => panic!("no operation: {:?}", other),
                    }
                    match &cond.body[1] {
                        LangType::Call(call) => assert_eq!(&call.clone(), call),
                        other => panic!("no call: {:?}", other),
                    }
                }
                other => panic!("no conditional: {:?}", other),
            }
        }
        other => panic!("no function: {:?}", other),
    }
}

#[test]
fn a_flat_function_has_one_node_for_each_body_line() {
    let body = ["let a 1", "add a 2", "# note", "const c 3", "print(a c)", "sub a a c"];
    let source = format!("fn f x:\n{}\nend\n", body.join("\n"));
    let ast = Parser::new(lex(&source)).parse_file().unwrap();
    assert_eq!(ast.len(), 1);
    match &ast[0] {
        LangType::Func(func) => {
            assert_eq!(func.name, "f");
            assert_eq!(func.param, vec![VarType::new("x".to_string())]);
            assert_eq!(func.body.len(), body.len());
            for (i, line) in body.iter().enumerate() {
                let alone = Parser::new(lex(&format!("{}\n", line)))
                    .parse_line(0)
                    .unwrap();
                assert_eq!(func.body[i], alone.lang_t);
            }
        }
        other => panic!("no function: {:?}", other),
    }
}

#[test]
fn texts_are_compared_by_their_characters() {
    assert!(same_text("", ""));
    assert!(same_text("add", "add"));
    assert!(!same_text("add", "adD"));
    assert!(!same_text("add", "ad"));
    assert!(!same_text("ad", "add"));
    assert!(same_text("\u{e9}t\u{e9}", "\u{e9}t\u{e9}"));
    assert!(!same_text("\u{e9}", "e"));
}

#[test]
fn a_tree_keeps_tokens_and_lines() {
    let tokens = lex("fn f:\n\nlet a 1\nend\nrest");
    let tree = AstTree::new(tokens.clone());
    assert_eq!(tree.tokenlist(), &tokens);
    assert_eq!(tree.organized_tokenlist(), &organize_tokenlist(&tokens));
    assert_eq!(tree.organized_tokenlist().len(), 3);
}
