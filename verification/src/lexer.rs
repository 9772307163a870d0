//! The lexer: one pass over the bytes of a source text, one byte of
//! lookahead, no backtracking.
//!
//! What the lexer computes is stated by `scan_token` and `scan_all`, two
//! functions on byte sequences; `Lexer` is proved to follow them.

use vstd::prelude::*;
use vstd::string::*;
use crate::text::same_text;

verus! {

/// One lexical unit.
#[derive(Debug, PartialEq)]
pub enum Token {
    Ident(String),
    Int(String),
    String(String),
    Bool(bool),
    Comment(String),
    Illegal,
    NewLine,
    Eof,
    Bang,
    Colon,
    Lparen,
    Rparen,
    Equal,
    NotEqual,
    LessThan,
    GreaterThan,
    Function,
    Const,
    Let,
    If,
    Else,
    Return,
    End,
}

/// The mathematical value of a token: its text is a sequence of characters.
pub enum TokenView {
    Ident(Seq<char>),
    Int(Seq<char>),
    String(Seq<char>),
    Bool(bool),
    Comment(Seq<char>),
    Illegal,
    NewLine,
    Eof,
    Bang,
    Colon,
    Lparen,
    Rparen,
    Equal,
    NotEqual,
    LessThan,
    GreaterThan,
    Function,
    Const,
    Let,
    If,
    Else,
    Return,
    End,
}

impl View for Token {
    type V = TokenView;

    open spec fn view(&self) -> TokenView {
        match self {
            Token::Ident(s) => TokenView::Ident(s@),
            Token::Int(s) => TokenView::Int(s@),
            Token::String(s) => TokenView::String(s@),
            Token::Bool(b) => TokenView::Bool(*b),
            Token::Comment(s) => TokenView::Comment(s@),
            Token::Illegal => TokenView::Illegal,
            Token::NewLine => TokenView::NewLine,
            Token::Eof => TokenView::Eof,
            Token::Bang => TokenView::Bang,
            Token::Colon => TokenView::Colon,
            Token::Lparen => TokenView::Lparen,
            Token::Rparen => TokenView::Rparen,
            Token::Equal => TokenView::Equal,
            Token::NotEqual => TokenView::NotEqual,
            Token::LessThan => TokenView::LessThan,
            Token::GreaterThan => TokenView::GreaterThan,
            Token::Function => TokenView::Function,
            Token::Const => TokenView::Const,
            Token::Let => TokenView::Let,
            Token::If => TokenView::If,
            Token::Else => TokenView::Else,
            Token::Return => TokenView::Return,
            Token::End => TokenView::End,
        }
    }
}

/// The values of a sequence of tokens, in order.
pub open spec fn tokens_view(tokens: Seq<Token>) -> Seq<TokenView> {
    Seq::new(tokens.len(), |i: int| tokens[i]@)
}

/// `tag`, an opening parenthesis, `body`, a closing parenthesis.
pub open spec fn wrapped_text(tag: Seq<char>, body: Seq<char>) -> Seq<char> {
    tag + "("@ + body + ")"@
}

/// How a token is written out: the variant's name, and for a token that
/// carries data, the data in parentheses behind it.
pub open spec fn token_text(t: TokenView) -> Seq<char> {
    match t {
        TokenView::Ident(x) => wrapped_text("Ident"@, x),
        TokenView::Int(x) => wrapped_text("Int"@, x),
        TokenView::String(x) => wrapped_text("String"@, x),
        TokenView::Bool(x) => if x {
            "Bool(true)"@
        } else {
            "Bool(false)"@
        },
        TokenView::Comment(x) => wrapped_text("Comment"@, x),
        TokenView::Illegal => "Illegal"@,
        TokenView::NewLine => "NewLine"@,
        TokenView::Eof => "Eof"@,
        TokenView::Bang => "Bang"@,
        TokenView::Colon => "Colon"@,
        TokenView::Lparen => "Lparen"@,
        TokenView::Rparen => "Rparen"@,
        TokenView::Equal => "Equal"@,
        TokenView::NotEqual => "NotEqual"@,
        TokenView::LessThan => "LessThan"@,
        TokenView::GreaterThan => "GreaterThan"@,
        TokenView::Function => "Function"@,
        TokenView::Const => "Const"@,
        TokenView::Let => "Let"@,
        TokenView::If => "If"@,
        TokenView::Else => "Else"@,
        TokenView::Return => "Return"@,
        TokenView::End => "End"@,
    }
}

/// `tag`, an opening parenthesis, `body`, a closing parenthesis.
fn wrapped(tag: &str, body: &str) -> (r: String)
    ensures
        r@ == wrapped_text(tag@, body@),
{
    let mut s = String::from_str(tag);
    s.append("(");
    s.append(body);
    s.append(")");
    s
}

impl Clone for Token {
    fn clone(&self) -> (r: Self)
        ensures
            r == *self,
    {
        match self {
            Token::Ident(s) => Token::Ident(s.clone()),
            Token::Int(s) => Token::Int(s.clone()),
            Token::String(s) => Token::String(s.clone()),
            Token::Bool(b) => Token::Bool(*b),
            Token::Comment(s) => Token::Comment(s.clone()),
            Token::Illegal => Token::Illegal,
            Token::NewLine => Token::NewLine,
            Token::Eof => Token::Eof,
            Token::Bang => Token::Bang,
            Token::Colon => Token::Colon,
            Token::Lparen => Token::Lparen,
            Token::Rparen => Token::Rparen,
            Token::Equal => Token::Equal,
            Token::NotEqual => Token::NotEqual,
            Token::LessThan => Token::LessThan,
            Token::GreaterThan => Token::GreaterThan,
            Token::Function => Token::Function,
            Token::Const => Token::Const,
            Token::Let => Token::Let,
            Token::If => Token::If,
            Token::Else => Token::Else,
            Token::Return => Token::Return,
            Token::End => Token::End,
        }
    }
}

impl Token {
    /// This token written out, as `token_text` gives it.
    pub fn to_string(&self) -> (r: String)
        ensures
            r@ == token_text(self@),
    {
        match self {
            Token::Ident(x) => wrapped("Ident", x.as_str()),
            Token::Int(x) => wrapped("Int", x.as_str()),
            Token::String(x) => wrapped("String", x.as_str()),
            Token::Bool(x) => if *x {
                String::from_str("Bool(true)")
            } else {
                String::from_str("Bool(false)")
            },
            Token::Comment(x) => wrapped("Comment", x.as_str()),
            Token::Illegal => String::from_str("Illegal"),
            Token::NewLine => String::from_str("NewLine"),
            Token::Eof => String::from_str("Eof"),
            Token::Bang => String::from_str("Bang"),
            Token::Colon => String::from_str("Colon"),
            Token::Lparen => String::from_str("Lparen"),
            Token::Rparen => String::from_str("Rparen"),
            Token::Equal => String::from_str("Equal"),
            Token::NotEqual => String::from_str("NotEqual"),
            Token::LessThan => String::from_str("LessThan"),
            Token::GreaterThan => String::from_str("GreaterThan"),
            Token::Function => String::from_str("Function"),
            Token::Const => String::from_str("Const"),
            Token::Let => String::from_str("Let"),
            Token::If => String::from_str("If"),
            Token::Else => String::from_str("Else"),
            Token::Return => String::from_str("Return"),
            Token::End => String::from_str("End"),
        }
    }
}

/// Why a text could not be lexed.
#[derive(Clone, Copy, Debug, PartialEq, Eq, Structural)]
pub enum LexError {
    /// A string literal was opened and the text ended, or held a zero
    /// byte, before its closing quote.
    UnclosedString,
}

/// The space, the one byte that separates tokens without being one.
pub const SPACE: u8 = 0x20;

/// `!`
pub const BANG: u8 = 0x21;

/// `"`
pub const QUOTE: u8 = 0x22;

/// `#`
pub const HASH: u8 = 0x23;

/// `(`
pub const LPAREN: u8 = 0x28;

/// `)`
pub const RPAREN: u8 = 0x29;

/// `0`
pub const DIGIT_0: u8 = 0x30;

/// `9`
pub const DIGIT_9: u8 = 0x39;

/// `:`
pub const COLON: u8 = 0x3a;

/// `<`
pub const LESS: u8 = 0x3c;

/// `=`
pub const EQUALS: u8 = 0x3d;

/// `>`
pub const GREATER: u8 = 0x3e;

/// `A`
pub const UPPER_A: u8 = 0x41;

/// `Z`
pub const UPPER_Z: u8 = 0x5a;

/// `_`
pub const UNDERSCORE: u8 = 0x5f;

/// `a`
pub const LOWER_A: u8 = 0x61;

/// `z`
pub const LOWER_Z: u8 = 0x7a;

/// The line feed, which ends a line.
pub const LINE_FEED: u8 = 0x0a;

/// The byte at offset `i` of `input`, and `0` where there is none: the end
/// of the text reads as a zero byte.
pub open spec fn byte_at(input: Seq<u8>, i: int) -> u8 {
    if 0 <= i < input.len() {
        input[i]
    } else {
        0
    }
}

/// The characters that bytes stand for, each byte taken as the code point
/// of the same number.
pub open spec fn text_of(bytes: Seq<u8>) -> Seq<char> {
    Seq::new(bytes.len(), |i: int| bytes[i] as char)
}

/// The runs of bytes that the lexer passes over in one sweep.
#[derive(Clone, Copy, Debug, PartialEq, Eq, Structural)]
pub enum Run {
    /// Spaces between tokens.
    Spaces,
    /// The letters and underscores of a word.
    Word,
    /// The digits of a number.
    Digits,
    /// What stands between the quotes of a string literal.
    Quoted,
    /// What follows the `#` of a comment on its line.
    Remark,
}

/// Whether a byte starts or continues a word: an ASCII letter or `_`.
pub open spec fn is_word_byte(b: u8) -> bool {
    (LOWER_A <= b <= LOWER_Z) || (UPPER_A <= b <= UPPER_Z) || b == UNDERSCORE
}

/// Whether a byte is an ASCII digit.
pub open spec fn is_digit_byte(b: u8) -> bool {
    DIGIT_0 <= b <= DIGIT_9
}

/// Whether byte `b` belongs to a run of kind `run`. A zero byte ends a
/// string literal and a comment as the end of the text does.
pub open spec fn in_run(run: Run, b: u8) -> bool {
    match run {
        Run::Spaces => b == SPACE,
        Run::Word => is_word_byte(b),
        Run::Digits => is_digit_byte(b),
        Run::Quoted => b != QUOTE && b != 0,
        Run::Remark => b != LINE_FEED && b != 0,
    }
}

/// The length of the longest run of kind `run` that starts at offset
/// `from`.
pub open spec fn run_len(input: Seq<u8>, from: int, run: Run) -> nat
    decreases input.len() - from,
{
    if 0 <= from < input.len() && in_run(run, input[from]) {
        1 + run_len(input, from + 1, run)
    } else {
        0
    }
}

/// The token that a word is: a keyword, a boolean literal, or a name.
pub open spec fn word_token(word: Seq<char>) -> TokenView {
    if word == "fn"@ {
        TokenView::Function
    } else if word == "let"@ {
        TokenView::Let
    } else if word == "const"@ {
        TokenView::Const
    } else if word == "if"@ {
        TokenView::If
    } else if word == "false"@ {
        TokenView::Bool(false)
    } else if word == "true"@ {
        TokenView::Bool(true)
    } else if word == "return"@ {
        TokenView::Return
    } else if word == "else"@ {
        TokenView::Else
    } else if word == "end"@ {
        TokenView::End
    } else {
        TokenView::Ident(word)
    }
}

/// One step of the lexer: the token found, or the error, and the offset
/// behind it.
pub struct Scan {
    pub token: Result<TokenView, LexError>,
    pub next: int,
}

/// The token that starts at offset `start`, where no space stands, and
/// the offset behind it as if the text had no end.
pub open spec fn scan_at(input: Seq<u8>, start: int) -> Scan {
    let b = byte_at(input, start);
    if b == COLON {
        Scan { token: Ok(TokenView::Colon), next: start + 1 }
    } else if b == BANG {
        if byte_at(input, start + 1) == EQUALS {
            Scan { token: Ok(TokenView::NotEqual), next: start + 2 }
        } else {
            Scan { token: Ok(TokenView::Bang), next: start + 1 }
        }
    } else if b == LPAREN {
        Scan { token: Ok(TokenView::Lparen), next: start + 1 }
    } else if b == RPAREN {
        Scan { token: Ok(TokenView::Rparen), next: start + 1 }
    } else if b == GREATER {
        Scan { token: Ok(TokenView::GreaterThan), next: start + 1 }
    } else if b == LESS {
        Scan { token: Ok(TokenView::LessThan), next: start + 1 }
    } else if b == EQUALS {
        Scan { token: Ok(TokenView::Equal), next: start + 2 }
    } else if b == QUOTE {
        let n = run_len(input, start + 1, Run::Quoted);
        if byte_at(input, start + 1 + n) == QUOTE {
            Scan {
                token: Ok(TokenView::String(text_of(input.subrange(start + 1, start + 1 + n)))),
                next: start + n + 2,
            }
        } else {
            Scan { token: Err(LexError::UnclosedString), next: start + 1 + n }
        }
    } else if b == HASH {
        let n = run_len(input, start + 1, Run::Remark);
        Scan {
            token: Ok(TokenView::Comment(text_of(input.subrange(start + 1, start + 1 + n)))),
            next: start + 1 + n,
        }
    } else if is_word_byte(b) {
        let n = run_len(input, start, Run::Word);
        Scan { token: Ok(word_token(text_of(input.subrange(start, start + n)))), next: start + n }
    } else if is_digit_byte(b) {
        let n = run_len(input, start, Run::Digits);
        Scan {
            token: Ok(TokenView::Int(text_of(input.subrange(start, start + n)))),
            next: start + n,
        }
    } else if b == LINE_FEED {
        Scan { token: Ok(TokenView::NewLine), next: start + 1 }
    } else if b == 0 {
        Scan { token: Ok(TokenView::Eof), next: start + 1 }
    } else {
        Scan { token: Ok(TokenView::Illegal), next: start + 1 }
    }
}

/// The next token of `input` from offset `pos` on.
///
/// Spaces are passed over, then the byte found decides: `:`, `(`, `)`,
/// `<`, `>` are tokens of one byte; `!` is `Bang`, or `NotEqual` together
/// with a `=` behind it; `=` is `Equal` and takes the byte behind it along,
/// whatever it is; `"` opens a string literal that runs to the next `"`
/// and is an error where none comes; `#` opens a comment that runs to the
/// end of its line; a letter or `_` starts a word and a digit a number,
/// each as long as it can be; a line feed is `NewLine`; a zero byte and the
/// end of the text are `Eof`; every other byte is `Illegal`. The offset
/// behind the token never passes the end of the text.
pub open spec fn scan_token(input: Seq<u8>, pos: int) -> Scan {
    let found = scan_at(input, pos + run_len(input, pos, Run::Spaces));
    Scan {
        token: found.token,
        next: if found.next <= input.len() {
            found.next
        } else {
            input.len() as int
        },
    }
}

/// All tokens of a text, or the error that ended the lexing, and the
/// offset at which the lexer came to rest.
pub struct ScanAll {
    pub tokens: Result<Seq<TokenView>, LexError>,
    pub end: int,
}

/// `rest`, with `prefix` in front of its tokens.
pub open spec fn scan_after(prefix: Seq<TokenView>, rest: ScanAll) -> ScanAll {
    ScanAll {
        tokens: match rest.tokens {
            Err(e) => Err(e),
            Ok(tokens) => Ok(prefix + tokens),
        },
        end: rest.end,
    }
}

/// The tokens of `input` from offset `pos` up to the first `Eof`, which
/// is not among them. The first error is the error of the whole.
pub open spec fn scan_all(input: Seq<u8>, pos: int) -> ScanAll
    decreases input.len() - pos,
{
    let first = scan_token(input, pos);
    match first.token {
        Err(e) => ScanAll { tokens: Err(e), end: first.next },
        Ok(TokenView::Eof) => ScanAll { tokens: Ok(Seq::empty()), end: first.next },
        Ok(token) => scan_after(seq![token], scan_all(input, first.next)),
    }
}

/// `String::push` appends the character to the end of the string.
pub assume_specification[ std::string::String::push ](s: &mut std::string::String, ch: char)
    ensures
        final(s)@ == old(s)@.push(ch),
;

fn in_run_exec(run: Run, b: u8) -> (r: bool)
    ensures
        r == in_run(run, b),
{
    match run {
        Run::Spaces => b == SPACE,
        Run::Word => (LOWER_A <= b && b <= LOWER_Z) || (UPPER_A <= b && b <= UPPER_Z) || b == UNDERSCORE,
        Run::Digits => DIGIT_0 <= b && b <= DIGIT_9,
        Run::Quoted => b != QUOTE && b != 0,
        Run::Remark => b != LINE_FEED && b != 0,
    }
}

/// The token that `word` is.
fn classify(word: String) -> (r: Token)
    ensures
        r@ == word_token(word@),
{
    if same_text(word.as_str(), "fn") {
        Token::Function
    } else if same_text(word.as_str(), "let") {
        Token::Let
    } else if same_text(word.as_str(), "const") {
        Token::Const
    } else if same_text(word.as_str(), "if") {
        Token::If
    } else if same_text(word.as_str(), "false") {
        Token::Bool(false)
    } else if same_text(word.as_str(), "true") {
        Token::Bool(true)
    } else if same_text(word.as_str(), "return") {
        Token::Return
    } else if same_text(word.as_str(), "else") {
        Token::Else
    } else if same_text(word.as_str(), "end") {
        Token::End
    } else {
        Token::Ident(word)
    }
}

/// A lexer over the bytes of one source text.
#[derive(Debug)]
pub struct Lexer {
    position: usize,
    input: Vec<u8>,
}

impl Lexer {
    #[verifier::type_invariant]
    spec fn in_bounds(self) -> bool {
        self.position <= self.input.len()
    }

    /// The bytes of the text.
    pub closed spec fn input(&self) -> Seq<u8> {
        self.input@
    }

    /// The offset of the next byte to be read; `input().len()` at the end.
    pub closed spec fn offset(&self) -> int {
        self.position as int
    }

    /// A lexer at the start of `input`, over its bytes in UTF-8.
    pub fn new(input: String) -> (lex: Lexer)
        ensures
            lex.input() == vstd::utf8::encode_utf8(input@),
            lex.offset() == 0,
    {
        Lexer { position: 0, input: input.as_str().as_bytes_vec() }
    }

    /// The next token, and the lexer moved behind it.
    pub fn next_token(&mut self) -> (r: Result<Token, LexError>)
        ensures
            final(self).input() == old(self).input(),
            final(self).offset() == scan_token(old(self).input(), old(self).offset()).next,
            match scan_token(old(self).input(), old(self).offset()).token {
                Ok(token) => r is Ok && r->Ok_0@ == token,
                Err(e) => r is Err && r->Err_0 == e,
            },
    {
        self.skip_whitespace();
        let ch = self.current();
        let tok = if ch == COLON {
            Token::Colon
        } else if ch == BANG {
            if self.peek() == EQUALS {
                self.read_char();
                Token::NotEqual
            } else {
                Token::Bang
            }
        } else if ch == LPAREN {
            Token::Lparen
        } else if ch == RPAREN {
            Token::Rparen
        } else if ch == GREATER {
            Token::GreaterThan
        } else if ch == LESS {
            Token::LessThan
        } else if ch == EQUALS {
            self.read_char();
            Token::Equal
        } else if ch == QUOTE {
            let string_literal = self.read_string()?;
            Token::String(string_literal)
        } else if ch == HASH {
            let comment = self.read_comment();
            Token::Comment(comment)
        } else if in_run_exec(Run::Word, ch) {
            let ident = self.read_ident();
            return Ok(classify(ident));
        } else if in_run_exec(Run::Digits, ch) {
            return Ok(Token::Int(self.read_int()));
        } else if ch == LINE_FEED {
            Token::NewLine
        } else if ch == 0 {
            Token::Eof
        } else {
            Token::Illegal
        };
        self.read_char();
        Ok(tok)
    }

    /// The byte at the cursor.
    fn current(&self) -> (b: u8)
        ensures
            b == byte_at(self.input(), self.offset()),
    {
        proof {
            use_type_invariant(self);
        }
        if self.position < self.input.len() {
            self.input[self.position]
        } else {
            0
        }
    }

    /// The byte behind the one at the cursor.
    fn peek(&self) -> (b: u8)
        ensures
            b == byte_at(self.input(), self.offset() + 1),
    {
        proof {
            use_type_invariant(self);
        }
        if self.position < self.input.len() && self.position + 1 < self.input.len() {
            self.input[self.position + 1]
        } else {
            0
        }
    }

    /// Moves the cursor one byte on, unless it is at the end.
    fn read_char(&mut self)
        ensures
            final(self).input() == old(self).input(),
            final(self).offset() == if old(self).offset() < old(self).input().len() {
                old(self).offset() + 1
            } else {
                old(self).offset()
            },
    {
        proof {
            use_type_invariant(&*self);
        }
        if self.position < self.input.len() {
            self.position += 1;
        }
    }

    /// Moves the cursor over a run of kind `run` and gives its text.
    fn read_run(&mut self, run: Run) -> (text: String)
        ensures
            final(self).input() == old(self).input(),
            final(self).offset() == old(self).offset() + run_len(
                old(self).input(),
                old(self).offset(),
                run,
            ),
            final(self).offset() <= old(self).input().len(),
            text@ == text_of(old(self).input().subrange(old(self).offset(), final(self).offset())),
    {
        proof {
            use_type_invariant(&*self);
        }
        let ghost start = self.position as int;
        let mut text = String::new();
        assert(text@ =~= text_of(self.input@.subrange(start, start)));
        while self.position < self.input.len() && in_run_exec(run, self.input[self.position])
            invariant
                self.input@ == old(self).input@,
                start == old(self).position,
                start <= self.position <= self.input.len(),
                text@ == text_of(self.input@.subrange(start, self.position as int)),
                run_len(self.input@, start, run) == (self.position - start) + run_len(
                    self.input@,
                    self.position as int,
                    run,
                ),
            decreases self.input.len() - self.position,
        {
            text.push(self.input[self.position] as char);
            self.position += 1;
            assert(text@ =~= text_of(self.input@.subrange(start, self.position as int)));
        }
        text
    }

    fn skip_whitespace(&mut self)
        ensures
            final(self).input() == old(self).input(),
            final(self).offset() == old(self).offset() + run_len(
                old(self).input(),
                old(self).offset(),
                Run::Spaces,
            ),
            final(self).offset() <= old(self).input().len(),
    {
        let _ = self.read_run(Run::Spaces);
    }

    /// Reads a string literal whose opening quote is at the cursor, and
    /// leaves the cursor on the closing quote.
    fn read_string(&mut self) -> (r: Result<String, LexError>)
        requires
            byte_at(old(self).input(), old(self).offset()) == QUOTE,
        ensures
            final(self).input() == old(self).input(),
            final(self).offset() == old(self).offset() + 1 + run_len(
                old(self).input(),
                old(self).offset() + 1,
                Run::Quoted,
            ),
            final(self).offset() <= old(self).input().len(),
            match r {
                Ok(text) => byte_at(old(self).input(), final(self).offset()) == QUOTE && text@
                    == text_of(
                    old(self).input().subrange(old(self).offset() + 1, final(self).offset()),
                ),
                Err(e) => byte_at(old(self).input(), final(self).offset()) != QUOTE && e
                    == LexError::UnclosedString,
            },
    {
        self.read_char();
        let string_literal = self.read_run(Run::Quoted);
        if self.current() == QUOTE {
            Ok(string_literal)
        } else {
            Err(LexError::UnclosedString)
        }
    }

    /// Reads a comment whose `#` is at the cursor, and leaves the cursor on
    /// its last byte.
    fn read_comment(&mut self) -> (text: String)
        requires
            byte_at(old(self).input(), old(self).offset()) == HASH,
        ensures
            final(self).input() == old(self).input(),
            final(self).offset() == old(self).offset() + run_len(
                old(self).input(),
                old(self).offset() + 1,
                Run::Remark,
            ),
            final(self).offset() < old(self).input().len(),
            text@ == text_of(
                old(self).input().subrange(old(self).offset() + 1, final(self).offset() + 1),
            ),
    {
        proof {
            use_type_invariant(&*self);
        }
        let ghost start = self.position as int;
        let mut comment = String::new();
        assert(comment@ =~= text_of(self.input@.subrange(start + 1, start + 1)));
        while in_run_exec(Run::Remark, self.peek())
            invariant
                self.input@ == old(self).input@,
                start == old(self).position,
                start <= self.position < self.input.len(),
                comment@ == text_of(self.input@.subrange(start + 1, self.position + 1)),
                run_len(self.input@, start + 1, Run::Remark) == (self.position - start) + run_len(
                    self.input@,
                    self.position + 1,
                    Run::Remark,
                ),
            decreases self.input.len() - self.position,
        {
            self.read_char();
            comment.push(self.current() as char);
            assert(comment@ =~= text_of(self.input@.subrange(start + 1, self.position + 1)));
        }
        comment
    }

    /// Reads the word that starts at the cursor.
    fn read_ident(&mut self) -> (text: String)
        ensures
            final(self).input() == old(self).input(),
            final(self).offset() == old(self).offset() + run_len(
                old(self).input(),
                old(self).offset(),
                Run::Word,
            ),
            final(self).offset() <= old(self).input().len(),
            text@ == text_of(old(self).input().subrange(old(self).offset(), final(self).offset())),
    {
        self.read_run(Run::Word)
    }

    /// Reads the number that starts at the cursor.
    fn read_int(&mut self) -> (text: String)
        ensures
            final(self).input() == old(self).input(),
            final(self).offset() == old(self).offset() + run_len(
                old(self).input(),
                old(self).offset(),
                Run::Digits,
            ),
            final(self).offset() <= old(self).input().len(),
            text@ == text_of(old(self).input().subrange(old(self).offset(), final(self).offset())),
    {
        self.read_run(Run::Digits)
    }

    /// All tokens up to the first `Eof`, which is not among them.
    ///
    /// Fails with the first error of the lexing; no token read before it
    /// is returned.
    pub fn collect(&mut self) -> (r: Result<Vec<Token>, LexError>)
        ensures
            final(self).input() == old(self).input(),
            final(self).offset() == scan_all(old(self).input(), old(self).offset()).end,
            match scan_all(old(self).input(), old(self).offset()).tokens {
                Ok(tokens) => r is Ok && tokens_view(r->Ok_0@) == tokens,
                Err(e) => r is Err && r->Err_0 == e,
            },
    {
        let mut tokens: Vec<Token> = Vec::new();
        let ghost whole = scan_all(self.input(), self.offset());
        assert(tokens_view(tokens@) + whole.tokens->Ok_0 =~= whole.tokens->Ok_0);
        loop
            invariant
                self.input() == old(self).input(),
                whole == scan_all(old(self).input(), old(self).offset()),
                whole == scan_after(tokens_view(tokens@), scan_all(self.input(), self.offset())),
            decreases self.input().len() - self.offset(),
        {
            let ghost before = tokens@;
            let token = self.next_token()?;
            if matches!(token, Token::Eof) {
                assert(tokens_view(tokens@) + Seq::<TokenView>::empty() =~= tokens_view(tokens@));
                return Ok(tokens);
            }
            tokens.push(token);
            proof {
                let rest = scan_all(self.input(), self.offset());
                assert(tokens_view(tokens@) =~= tokens_view(before).push(token@));
                if rest.tokens is Ok {
                    assert(tokens_view(before) + (seq![token@] + rest.tokens->Ok_0) =~= tokens_view(
                        tokens@,
                    ) + rest.tokens->Ok_0);
                }
            }
        }
    }
}

/// A step never moves the cursor back, and never past the end.
pub proof fn lemma_scan_token_bounds(input: Seq<u8>, pos: int)
    requires
        0 <= pos <= input.len(),
    ensures
        pos <= scan_token(input, pos).next <= input.len(),
{
    lemma_run_len_bounds(input, pos, Run::Spaces);
}

/// A run ends within the text.
pub proof fn lemma_run_len_bounds(input: Seq<u8>, from: int, run: Run)
    requires
        0 <= from <= input.len(),
    ensures
        from + run_len(input, from, run) <= input.len(),
    decreases input.len() - from,
{
    if from < input.len() && in_run(run, input[from]) {
        lemma_run_len_bounds(input, from + 1, run);
    }
}

/// A step that finds a token other than `Eof` moves the cursor on.
pub proof fn lemma_scan_token_progress(input: Seq<u8>, pos: int)
    requires
        0 <= pos <= input.len(),
        scan_token(input, pos).token is Ok,
        !(scan_token(input, pos).token->Ok_0 is Eof),
    ensures
        pos < scan_token(input, pos).next,
{
    lemma_run_len_bounds(input, pos, Run::Spaces);
}

/// `Eof` is not among the tokens that `scan_all` gives, and the lexer
/// comes to rest within the text.
pub proof fn lemma_scan_all(input: Seq<u8>, pos: int)
    requires
        0 <= pos <= input.len(),
    ensures
        pos <= scan_all(input, pos).end <= input.len(),
        scan_all(input, pos).tokens matches Ok(tokens) ==> forall|i: int|
            0 <= i < tokens.len() ==> !(#[trigger] tokens[i] is Eof),
    decreases input.len() - pos,
{
    let first = scan_token(input, pos);
    lemma_scan_token_bounds(input, pos);
    match first.token {
        Err(e) => {},
        Ok(TokenView::Eof) => {},
        Ok(token) => {
            lemma_scan_token_progress(input, pos);
            lemma_scan_all(input, first.next);
        },
    }
}

} // verus!
