use linescript::lexer::{Lexer, Token};
use linescript::parser::{organize_tokenlist, Parser};

fn lex(input: &str) -> Vec<Token> {
    Lexer::new(input.to_string()).collect().unwrap()
}

fn name(text: &str) -> Token {
    Token::Ident(text.to_string())
}

/// Each line in order, with a `NewLine` behind it.
fn join(lines: &[Vec<Token>]) -> Vec<Token> {
    let mut tokens = Vec::new();
    for line in lines {
        tokens.extend(line.iter().cloned());
        tokens.push(Token::NewLine);
    }
    tokens
}

/// The number of `NewLine` tokens that stand behind another token.
fn closed_lines(tokens: &[Token]) -> usize {
    (1..tokens.len())
        .filter(|&i| tokens[i] == Token::NewLine && tokens[i - 1] != Token::NewLine)
        .count()
}

#[test]
fn lines_are_cut_at_newlines() {
    assert_eq!(
        organize_tokenlist(&lex("a b\nc\n")),
        vec![vec![name("a"), name("b")], vec![name("c")]]
    );
}

#[test]
fn blank_lines_give_no_line() {
    assert_eq!(
        organize_tokenlist(&lex("\n\na\n\n\nb\n\n")),
        vec![vec![name("a")], vec![name("b")]]
    );
    assert_eq!(organize_tokenlist(&lex("\n")), Vec::<Vec<Token>>::new());
    assert_eq!(organize_tokenlist(&lex("   \n  \n")), Vec::<Vec<Token>>::new());
}

#[test]
fn no_tokens_give_no_line() {
    assert_eq!(organize_tokenlist(&[]), Vec::<Vec<Token>>::new());
}

#[test]
fn tokens_behind_the_last_newline_are_dropped() {
    assert_eq!(organize_tokenlist(&lex("a")), Vec::<Vec<Token>>::new());
    assert_eq!(organize_tokenlist(&lex("a\nb")), vec![vec![name("a")]]);
    assert_eq!(organize_tokenlist(&lex("a\nb c d")), vec![vec![name("a")]]);
}

#[test]
fn no_line_holds_a_newline_or_is_empty() {
    let lines = organize_tokenlist(&lex("fn f:\n\nlet a 1\n# c\n\n\nend\nx"));
    assert_eq!(lines.len(), 4);
    for line in &lines {
        assert!(!line.is_empty());
        assert!(!line.contains(&Token::NewLine));
    }
}

#[test]
fn as_many_lines_as_closed_lines_that_are_not_blank() {
    for input in [
        "",
        "a",
        "\n",
        "a\n",
        "a\nb",
        "\n\na\n\nb c\n\n",
        "fn main:\nlet a 5\nif a != 4:\nadd a a 6\nend\nend\n",
        "fn main:\nlet a 5\nif a != 4:\nadd a a 6\nend\nend",
    ] {
        let tokens = lex(input);
        assert_eq!(organize_tokenlist(&tokens).len(), closed_lines(&tokens));
    }
    assert_eq!(
        organize_tokenlist(&lex("fn main:\nlet a 5\nif a != 4:\nadd a a 6\nend\nend\n")).len(),
        6
    );
}

#[test]
fn organizing_twice_changes_nothing() {
    for input in [
        "",
        "a",
        "\n\na\n\nb c\n\n",
        "fn main:\nlet a 5\n\n\nif a != 4:\nadd a a 6\nend\nend\ntrailing",
    ] {
        let lines = organize_tokenlist(&lex(input));
        assert_eq!(organize_tokenlist(&join(&lines)), lines);
    }
}

#[test]
fn joined_logical_lines_come_back() {
    let lines = vec![
        vec![Token::Let, name("a"), Token::Int("1".to_string())],
        vec![Token::End],
        vec![Token::Comment("c".to_string()), Token::Eof],
    ];
    assert_eq!(organize_tokenlist(&join(&lines)), lines);
}

#[test]
fn the_parser_reads_the_organized_lines() {
    let tokens = lex("fn f:\n\nlet a 1\nend\nrest");
    let parser = Parser::new(tokens.clone());
    assert_eq!(parser.lines(), &organize_tokenlist(&tokens));
    assert_eq!(parser.lines().len(), 3);
}

#[test]
fn separators_alone_lose_the_last_line() {
    let lines = vec![vec![name("a")], vec![name("b"), name("c")], vec![name("d")]];
    let mut separated = join(&lines);
    assert_eq!(separated.pop(), Some(Token::NewLine));
    assert_eq!(organize_tokenlist(&separated), lines[..2].to_vec());
}

#[test]
fn no_token_of_a_closed_line_is_lost() {
    let tokens = lex("\n\na b\n\nc\n\n\nd e\nrest over");
    let kept: Vec<Token> = organize_tokenlist(&tokens).concat();
    let last_newline = tokens.iter().rposition(|t| *t == Token::NewLine).unwrap();
    let expected: Vec<Token> = tokens[..last_newline]
        .iter()
        .filter(|t| **t != Token::NewLine)
        .cloned()
        .collect();
    assert_eq!(kept, expected);
    assert_eq!(kept.len(), 5);
}
