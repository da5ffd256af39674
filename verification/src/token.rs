use vstd::prelude::*;

verus! {

/// The kind of a lexical token. Payload-bearing variants carry the value that
/// was scanned; the remaining variants stand for one operator, delimiter or
/// keyword each.
#[derive(Debug, Eq, Hash)]
pub enum TokenKind {
    ILLEGAL,
    EOF,
    // Identifiers + literals
    IDENTIFIER { name: String },
    INT(i64),
    STRING(String),
    // Operators
    ASSIGN,
    PLUS,
    MINUS,
    BANG,
    ASTERISK,
    SLASH,
    LT,
    GT,
    EQ,
    NotEq,
    // Delimiters
    COMMA,
    SEMICOLON,
    COLON,
    LPAREN,
    RPAREN,
    LBRACE,
    RBRACE,
    LBRACKET,
    RBRACKET,
    // Keywords
    FUNCTION,
    LET,
    TRUE,
    FALSE,
    IF,
    ELSE,
    RETURN,
}

/// Mathematical picture of a token kind: payloads are sequences of characters
/// and unbounded integers, so contracts can speak of them directly.
pub enum SpecTokenKind {
    Illegal,
    EndOfInput,
    Ident(Seq<char>),
    IntLit(int),
    StrLit(Seq<char>),
    Assign,
    Plus,
    Minus,
    Bang,
    Asterisk,
    Slash,
    Less,
    Greater,
    Equal,
    NotEqual,
    Comma,
    Semicolon,
    Colon,
    Lparen,
    Rparen,
    Lbrace,
    Rbrace,
    Lbracket,
    Rbracket,
    KwFunction,
    KwLet,
    KwTrue,
    KwFalse,
    KwIf,
    KwElse,
    KwReturn,
}

impl View for TokenKind {
    type V = SpecTokenKind;

    open spec fn view(&self) -> SpecTokenKind {
        match self {
            TokenKind::ILLEGAL => SpecTokenKind::Illegal,
            TokenKind::EOF => SpecTokenKind::EndOfInput,
            TokenKind::IDENTIFIER { name } => SpecTokenKind::Ident(name@),
            TokenKind::INT(i) => SpecTokenKind::IntLit(*i as int),
            TokenKind::STRING(s) => SpecTokenKind::StrLit(s@),
            TokenKind::ASSIGN => SpecTokenKind::Assign,
            TokenKind::PLUS => SpecTokenKind::Plus,
            TokenKind::MINUS => SpecTokenKind::Minus,
            TokenKind::BANG => SpecTokenKind::Bang,
            TokenKind::ASTERISK => SpecTokenKind::Asterisk,
            TokenKind::SLASH => SpecTokenKind::Slash,
            TokenKind::LT => SpecTokenKind::Less,
            TokenKind::GT => SpecTokenKind::Greater,
            TokenKind::EQ => SpecTokenKind::Equal,
            TokenKind::NotEq => SpecTokenKind::NotEqual,
            TokenKind::COMMA => SpecTokenKind::Comma,
            TokenKind::SEMICOLON => SpecTokenKind::Semicolon,
            TokenKind::COLON => SpecTokenKind::Colon,
            TokenKind::LPAREN => SpecTokenKind::Lparen,
            TokenKind::RPAREN => SpecTokenKind::Rparen,
            TokenKind::LBRACE => SpecTokenKind::Lbrace,
            TokenKind::RBRACE => SpecTokenKind::Rbrace,
            TokenKind::LBRACKET => SpecTokenKind::Lbracket,
            TokenKind::RBRACKET => SpecTokenKind::Rbracket,
            TokenKind::FUNCTION => SpecTokenKind::KwFunction,
            TokenKind::LET => SpecTokenKind::KwLet,
            TokenKind::TRUE => SpecTokenKind::KwTrue,
            TokenKind::FALSE => SpecTokenKind::KwFalse,
            TokenKind::IF => SpecTokenKind::KwIf,
            TokenKind::ELSE => SpecTokenKind::KwElse,
            TokenKind::RETURN => SpecTokenKind::KwReturn,
        }
    }
}

impl PartialEq for TokenKind {
    #[verifier::rlimit(100)]
    fn eq(&self, other: &TokenKind) -> (r: bool) {
        match (self, other) {
            (TokenKind::ILLEGAL, TokenKind::ILLEGAL) => true,
            (TokenKind::EOF, TokenKind::EOF) => true,
            (TokenKind::IDENTIFIER { name: a }, TokenKind::IDENTIFIER { name: b }) => *a == *b,
            (TokenKind::INT(a), TokenKind::INT(b)) => *a == *b,
            (TokenKind::STRING(a), TokenKind::STRING(b)) => *a == *b,
            (TokenKind::ASSIGN, TokenKind::ASSIGN) => true,
            (TokenKind::PLUS, TokenKind::PLUS) => true,
            (TokenKind::MINUS, TokenKind::MINUS) => true,
            (TokenKind::BANG, TokenKind::BANG) => true,
            (TokenKind::ASTERISK, TokenKind::ASTERISK) => true,
            (TokenKind::SLASH, TokenKind::SLASH) => true,
            (TokenKind::LT, TokenKind::LT) => true,
            (TokenKind::GT, TokenKind::GT) => true,
            (TokenKind::EQ, TokenKind::EQ) => true,
            (TokenKind::NotEq, TokenKind::NotEq) => true,
            (TokenKind::COMMA, TokenKind::COMMA) => true,
            (TokenKind::SEMICOLON, TokenKind::SEMICOLON) => true,
            (TokenKind::COLON, TokenKind::COLON) => true,
            (TokenKind::LPAREN, TokenKind::LPAREN) => true,
            (TokenKind::RPAREN, TokenKind::RPAREN) => true,
            (TokenKind::LBRACE, TokenKind::LBRACE) => true,
            (TokenKind::RBRACE, TokenKind::RBRACE) => true,
            (TokenKind::LBRACKET, TokenKind::LBRACKET) => true,
            (TokenKind::RBRACKET, TokenKind::RBRACKET) => true,
            (TokenKind::FUNCTION, TokenKind::FUNCTION) => true,
            (TokenKind::LET, TokenKind::LET) => true,
            (TokenKind::TRUE, TokenKind::TRUE) => true,
            (TokenKind::FALSE, TokenKind::FALSE) => true,
            (TokenKind::IF, TokenKind::IF) => true,
            (TokenKind::ELSE, TokenKind::ELSE) => true,
            (TokenKind::RETURN, TokenKind::RETURN) => true,
            _ => false,
        }
    }
}

impl vstd::std_specs::cmp::PartialEqSpecImpl for TokenKind {
    open spec fn obeys_eq_spec() -> bool {
        true
    }

    open spec fn eq_spec(&self, other: &TokenKind) -> bool {
        self@ == other@
    }
}

impl Clone for TokenKind {
    /// Cloning keeps the abstract value of the kind.
    fn clone(&self) -> (r: TokenKind)
        ensures
            r@ == self@,
    {
        match self {
            TokenKind::ILLEGAL => TokenKind::ILLEGAL,
            TokenKind::EOF => TokenKind::EOF,
            TokenKind::IDENTIFIER { name } => TokenKind::IDENTIFIER { name: name.clone() },
            TokenKind::INT(i) => TokenKind::INT(*i),
            TokenKind::STRING(s) => TokenKind::STRING(s.clone()),
            TokenKind::ASSIGN => TokenKind::ASSIGN,
            TokenKind::PLUS => TokenKind::PLUS,
            TokenKind::MINUS => TokenKind::MINUS,
            TokenKind::BANG => TokenKind::BANG,
            TokenKind::ASTERISK => TokenKind::ASTERISK,
            TokenKind::SLASH => TokenKind::SLASH,
            TokenKind::LT => TokenKind::LT,
            TokenKind::GT => TokenKind::GT,
            TokenKind::EQ => TokenKind::EQ,
            TokenKind::NotEq => TokenKind::NotEq,
            TokenKind::COMMA => TokenKind::COMMA,
            TokenKind::SEMICOLON => TokenKind::SEMICOLON,
            TokenKind::COLON => TokenKind::COLON,
            TokenKind::LPAREN => TokenKind::LPAREN,
            TokenKind::RPAREN => TokenKind::RPAREN,
            TokenKind::LBRACE => TokenKind::LBRACE,
            TokenKind::RBRACE => TokenKind::RBRACE,
            TokenKind::LBRACKET => TokenKind::LBRACKET,
            TokenKind::RBRACKET => TokenKind::RBRACKET,
            TokenKind::FUNCTION => TokenKind::FUNCTION,
            TokenKind::LET => TokenKind::LET,
            TokenKind::TRUE => TokenKind::TRUE,
            TokenKind::FALSE => TokenKind::FALSE,
            TokenKind::IF => TokenKind::IF,
            TokenKind::ELSE => TokenKind::ELSE,
            TokenKind::RETURN => TokenKind::RETURN,
        }
    }
}

/// A token: its kind together with the exact source text it was scanned from.
#[derive(Debug, PartialEq, Eq, Hash)]
pub struct Token {
    pub kind: TokenKind,
    pub literal: String,
}

/// Mathematical picture of a token.
pub struct SpecToken {
    pub kind: SpecTokenKind,
    pub literal: Seq<char>,
}

impl View for Token {
    type V = SpecToken;

    open spec fn view(&self) -> SpecToken {
        SpecToken { kind: self.kind@, literal: self.literal@ }
    }
}

impl Clone for Token {
    /// Cloning keeps the abstract value of the token.
    fn clone(&self) -> (r: Token)
        ensures
            r@ == self@,
    {
        Token { kind: self.kind.clone(), literal: self.literal.clone() }
    }
}

/// The character of one decimal digit.
pub open spec fn dec_digit(d: int) -> char {
    if d == 0 {
        '0'
    } else if d == 1 {
        '1'
    } else if d == 2 {
        '2'
    } else if d == 3 {
        '3'
    } else if d == 4 {
        '4'
    } else if d == 5 {
        '5'
    } else if d == 6 {
        '6'
    } else if d == 7 {
        '7'
    } else if d == 8 {
        '8'
    } else {
        '9'
    }
}

/// The decimal digits of a nonnegative integer, most significant first.
pub open spec fn dec_rep_nat(n: int) -> Seq<char>
    decreases n,
    when n >= 0
{
    if n < 10 {
        seq![dec_digit(n)]
    } else {
        dec_rep_nat(n / 10) + seq![dec_digit(n % 10)]
    }
}

/// The decimal form of an integer: a leading minus sign when negative.
pub open spec fn dec_rep(n: int) -> Seq<char> {
    if n < 0 {
        seq!['-'] + dec_rep_nat(-n)
    } else {
        dec_rep_nat(n)
    }
}

/// The text of one decimal digit.
fn digit_str(d: u64) -> (r: &'static str)
    requires
        d < 10,
    ensures
        r@ == seq![dec_digit(d as int)],
{
    proof {
        reveal_strlit("0");
        reveal_strlit("1");
        reveal_strlit("2");
        reveal_strlit("3");
        reveal_strlit("4");
        reveal_strlit("5");
        reveal_strlit("6");
        reveal_strlit("7");
        reveal_strlit("8");
        reveal_strlit("9");
        assert("0"@ =~= seq![dec_digit(0)]);
        assert("1"@ =~= seq![dec_digit(1)]);
        assert("2"@ =~= seq![dec_digit(2)]);
        assert("3"@ =~= seq![dec_digit(3)]);
        assert("4"@ =~= seq![dec_digit(4)]);
        assert("5"@ =~= seq![dec_digit(5)]);
        assert("6"@ =~= seq![dec_digit(6)]);
        assert("7"@ =~= seq![dec_digit(7)]);
        assert("8"@ =~= seq![dec_digit(8)]);
        assert("9"@ =~= seq![dec_digit(9)]);
    }
    match d {
        0 => "0",
        1 => "1",
        2 => "2",
        3 => "3",
        4 => "4",
        5 => "5",
        6 => "6",
        7 => "7",
        8 => "8",
        _ => "9",
    }
}

/// Appends the decimal digits of `n` to `out`.
fn push_dec(n: u64, out: &mut String)
    ensures
        final(out)@ == old(out)@ + dec_rep_nat(n as int),
    decreases n,
{
    if n < 10 {
        out.append(digit_str(n));
    } else {
        push_dec(n / 10, out);
        out.append(digit_str(n % 10));
        proof {
            assert(out@ =~= old(out)@ + dec_rep_nat(n as int));
        }
    }
}

/// The decimal form of a 64-bit signed integer.
fn i64_display(n: i64) -> (r: String)
    ensures
        r@ == dec_rep(n as int),
{
    let mut out = String::new();
    if n >= 0 {
        push_dec(n as u64, &mut out);
    } else {
        proof {
            reveal_strlit("-");
            assert("-"@ =~= seq!['-']);
        }
        out.append("-");
        let m: u64 = if n == i64::MIN {
            9223372036854775808u64
        } else {
            (-n) as u64
        };
        push_dec(m, &mut out);
        proof {
            assert(out@ =~= seq!['-'] + dec_rep_nat(-(n as int)));
        }
    }
    out
}

/// The display form of a token kind, as the diagnostic printer writes it.
pub open spec fn spec_kind_display(k: SpecTokenKind) -> Seq<char> {
    match k {
        SpecTokenKind::Illegal => "ILLEGAL"@,
        SpecTokenKind::EndOfInput => "EOF"@,
        SpecTokenKind::Ident(name) => name,
        SpecTokenKind::IntLit(i) => dec_rep(i),
        SpecTokenKind::StrLit(s) => s,
        SpecTokenKind::Assign => "ASSIGN"@,
        SpecTokenKind::Plus => "+"@,
        SpecTokenKind::Minus => "-"@,
        SpecTokenKind::Bang => "!"@,
        SpecTokenKind::Asterisk => "*"@,
        SpecTokenKind::Slash => "/"@,
        SpecTokenKind::Less => "<"@,
        SpecTokenKind::Greater => ">"@,
        SpecTokenKind::Equal => "EQ"@,
        SpecTokenKind::NotEqual => "!="@,
        SpecTokenKind::Comma => "COMMA"@,
        SpecTokenKind::Semicolon => "SEMICOLON"@,
        SpecTokenKind::Colon => "COLON"@,
        SpecTokenKind::Lparen => "("@,
        SpecTokenKind::Rparen => ")"@,
        SpecTokenKind::Lbrace => "{"@,
        SpecTokenKind::Rbrace => "}"@,
        SpecTokenKind::Lbracket => "["@,
        SpecTokenKind::Rbracket => "]"@,
        SpecTokenKind::KwFunction => "fn"@,
        SpecTokenKind::KwLet => "LET"@,
        SpecTokenKind::KwTrue => "TRUE"@,
        SpecTokenKind::KwFalse => "FALSE"@,
        SpecTokenKind::KwIf => "if"@,
        SpecTokenKind::KwElse => "else"@,
        SpecTokenKind::KwReturn => "return"@,
    }
}

impl TokenKind {
    /// The display text of this kind, for diagnostic output.
    pub fn display_string(&self) -> (r: String)
        ensures
            r@ == spec_kind_display(self@),
    {
        match self {
            TokenKind::ILLEGAL => "ILLEGAL".to_owned(),
            TokenKind::EOF => "EOF".to_owned(),
            TokenKind::IDENTIFIER { name } => name.clone(),
            TokenKind::INT(i) => i64_display(*i),
            TokenKind::STRING(s) => s.clone(),
            TokenKind::ASSIGN => "ASSIGN".to_owned(),
            TokenKind::PLUS => "+".to_owned(),
            TokenKind::MINUS => "-".to_owned(),
            TokenKind::BANG => "!".to_owned(),
            TokenKind::ASTERISK => "*".to_owned(),
            TokenKind::SLASH => "/".to_owned(),
            TokenKind::LT => "<".to_owned(),
            TokenKind::GT => ">".to_owned(),
            TokenKind::EQ => "EQ".to_owned(),
            TokenKind::NotEq => "!=".to_owned(),
            TokenKind::COMMA => "COMMA".to_owned(),
            TokenKind::SEMICOLON => "SEMICOLON".to_owned(),
            TokenKind::COLON => "COLON".to_owned(),
            TokenKind::LPAREN => "(".to_owned(),
            TokenKind::RPAREN => ")".to_owned(),
            TokenKind::LBRACE => "{".to_owned(),
            TokenKind::RBRACE => "}".to_owned(),
            TokenKind::LBRACKET => "[".to_owned(),
            TokenKind::RBRACKET => "]".to_owned(),
            TokenKind::FUNCTION => "fn".to_owned(),
            TokenKind::LET => "LET".to_owned(),
            TokenKind::TRUE => "TRUE".to_owned(),
            TokenKind::FALSE => "FALSE".to_owned(),
            TokenKind::IF => "if".to_owned(),
            TokenKind::ELSE => "else".to_owned(),
            TokenKind::RETURN => "return".to_owned(),
        }
    }
}

impl Token {
    /// The display form of a token: its kind's display text after a
    /// `kind: ` prefix.
    pub fn display_string(&self) -> (r: String)
        ensures
            r@ == "kind: "@ + spec_kind_display(self.kind@),
    {
        let mut out = String::from_str("kind: ");
        let k = self.kind.display_string();
        out.append(k.as_str());
        out
    }
}

/// What `lookup_identifier` returns: the keyword kind for one of the seven
/// reserved words, and an identifier kind carrying the name otherwise.
pub open spec fn spec_lookup_identifier(name: Seq<char>) -> SpecTokenKind {
    if name == seq!['f', 'n'] {
        SpecTokenKind::KwFunction
    } else if name == seq!['l', 'e', 't'] {
        SpecTokenKind::KwLet
    } else if name == seq!['t', 'r', 'u', 'e'] {
        SpecTokenKind::KwTrue
    } else if name == seq!['f', 'a', 'l', 's', 'e'] {
        SpecTokenKind::KwFalse
    } else if name == seq!['i', 'f'] {
        SpecTokenKind::KwIf
    } else if name == seq!['e', 'l', 's', 'e'] {
        SpecTokenKind::KwElse
    } else if name == seq!['r', 'e', 't', 'u', 'r', 'n'] {
        SpecTokenKind::KwReturn
    } else {
        SpecTokenKind::Ident(name)
    }
}

/// Compares two string slices character by character.
fn str_eq_value(a: &str, b: &str) -> (r: bool)
    ensures
        r == (a@ == b@),
{
    let alen = a.unicode_len();
    let blen = b.unicode_len();
    if alen != blen {
        return false;
    }
    let mut i: usize = 0;
    while i < alen
        invariant
            a@.len() == alen,
            b@.len() == alen,
            i <= alen,
            forall|j: int| 0 <= j < i ==> a@[j] == b@[j],
        decreases alen - i,
    {
        if a.get_char(i) != b.get_char(i) {
            return false;
        }
        i += 1;
    }
    proof {
        assert(a@ =~= b@);
    }
    true
}

/// Classifies a scanned word: one of the seven keywords maps to its keyword
/// kind, anything else becomes an identifier carrying the word itself.
pub fn lookup_identifier(identifier: &str) -> (t: TokenKind)
    ensures
        t@ == spec_lookup_identifier(identifier@),
{
    proof {
        reveal_strlit("fn");
        reveal_strlit("let");
        reveal_strlit("true");
        reveal_strlit("false");
        reveal_strlit("if");
        reveal_strlit("else");
        reveal_strlit("return");
        assert("fn"@ =~= seq!['f', 'n']);
        assert("let"@ =~= seq!['l', 'e', 't']);
        assert("true"@ =~= seq!['t', 'r', 'u', 'e']);
        assert("false"@ =~= seq!['f', 'a', 'l', 's', 'e']);
        assert("if"@ =~= seq!['i', 'f']);
        assert("else"@ =~= seq!['e', 'l', 's', 'e']);
        assert("return"@ =~= seq!['r', 'e', 't', 'u', 'r', 'n']);
    }
    if str_eq_value(identifier, "fn") {
        TokenKind::FUNCTION
    } else if str_eq_value(identifier, "let") {
        TokenKind::LET
    } else if str_eq_value(identifier, "true") {
        TokenKind::TRUE
    } else if str_eq_value(identifier, "false") {
        TokenKind::FALSE
    } else if str_eq_value(identifier, "if") {
        TokenKind::IF
    } else if str_eq_value(identifier, "else") {
        TokenKind::ELSE
    } else if str_eq_value(identifier, "return") {
        TokenKind::RETURN
    } else {
        TokenKind::IDENTIFIER { name: identifier.to_owned() }
    }
}

} // verus!
