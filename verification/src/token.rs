//! The tokens of the small scripting language.
use vstd::prelude::*;

verus! {

/// A token of the language. A floating-point literal is held as the text it
/// was read from.
#[derive(Debug, Clone, PartialEq)]
pub enum Token {
    // VARIABLE
    Var(String),
    Unknown,
    // TYPES
    Char,
    Str(String),
    Bool(bool),
    Number(i64),
    Float(String),
    // SYMBOLS
    PLUS,
    MINUS,
    STAR,
    SLASH,
    SQ,
    LET,
    ASSIGN,
    // CLAUSES
    EQ,
    UNEQ,
    GT,
    GE,
    LT,
    LE,
    IF,
    ELSEIF,
    ELSE,
    THEN,
    WHILE,
    DO,
    FOR,
    IN,
    END,
    // BRACKETS
    SPARENT,
    EPARENT,
    CurlSbracket,
    CurlEbreacket,
    SquareSbracket,
    SquareEbracket,
    // FUNC
    Func,
}

/// The value a [`Token`] stands for, its texts as character sequences.
pub enum TokenView {
    Var(Seq<char>),
    Unknown,
    Char,
    Str(Seq<char>),
    Bool(bool),
    Number(int),
    Float(Seq<char>),
    PLUS,
    MINUS,
    STAR,
    SLASH,
    SQ,
    LET,
    ASSIGN,
    EQ,
    UNEQ,
    GT,
    GE,
    LT,
    LE,
    IF,
    ELSEIF,
    ELSE,
    THEN,
    WHILE,
    DO,
    FOR,
    IN,
    END,
    SPARENT,
    EPARENT,
    CurlSbracket,
    CurlEbreacket,
    SquareSbracket,
    SquareEbracket,
    Func,
}

impl View for Token {
    type V = TokenView;

    open spec fn view(&self) -> TokenView {
        match self {
            Token::Var(s) => TokenView::Var(s@),
            Token::Unknown => TokenView::Unknown,
            Token::Char => TokenView::Char,
            Token::Str(s) => TokenView::Str(s@),
            Token::Bool(b) => TokenView::Bool(*b),
            Token::Number(n) => TokenView::Number(*n as int),
            Token::Float(s) => TokenView::Float(s@),
            Token::PLUS => TokenView::PLUS,
            Token::MINUS => TokenView::MINUS,
            Token::STAR => TokenView::STAR,
            Token::SLASH => TokenView::SLASH,
            Token::SQ => TokenView::SQ,
            Token::LET => TokenView::LET,
            Token::ASSIGN => TokenView::ASSIGN,
            Token::EQ => TokenView::EQ,
            Token::UNEQ => TokenView::UNEQ,
            Token::GT => TokenView::GT,
            Token::GE => TokenView::GE,
            Token::LT => TokenView::LT,
            Token::LE => TokenView::LE,
            Token::IF => TokenView::IF,
            Token::ELSEIF => TokenView::ELSEIF,
            Token::ELSE => TokenView::ELSE,
            Token::THEN => TokenView::THEN,
            Token::WHILE => TokenView::WHILE,
            Token::DO => TokenView::DO,
            Token::FOR => TokenView::FOR,
            Token::IN => TokenView::IN,
            Token::END => TokenView::END,
            Token::SPARENT => TokenView::SPARENT,
            Token::EPARENT => TokenView::EPARENT,
            Token::CurlSbracket => TokenView::CurlSbracket,
            Token::CurlEbreacket => TokenView::CurlEbreacket,
            Token::SquareSbracket => TokenView::SquareSbracket,
            Token::SquareEbracket => TokenView::SquareEbracket,
            Token::Func => TokenView::Func,
        }
    }
}

/// The views of a sequence of tokens.
pub open spec fn token_views(ts: Seq<Token>) -> Seq<TokenView> {
    ts.map_values(|t: Token| t@)
}

impl Token {
    /// A copy of this token.
    pub fn duplicate(&self) -> (r: Token)
        ensures
            r@ == self@,
    {
        match self {
            Token::Var(s) => Token::Var(s.clone()),
            Token::Unknown => Token::Unknown,
            Token::Char => Token::Char,
            Token::Str(s) => Token::Str(s.clone()),
            Token::Bool(b) => Token::Bool(*b),
            Token::Number(n) => Token::Number(*n),
            Token::Float(s) => Token::Float(s.clone()),
            Token::PLUS => Token::PLUS,
            Token::MINUS => Token::MINUS,
            Token::STAR => Token::STAR,
            Token::SLASH => Token::SLASH,
            Token::SQ => Token::SQ,
            Token::LET => Token::LET,
            Token::ASSIGN => Token::ASSIGN,
            Token::EQ => Token::EQ,
            Token::UNEQ => Token::UNEQ,
            Token::GT => Token::GT,
            Token::GE => Token::GE,
            Token::LT => Token::LT,
            Token::LE => Token::LE,
            Token::IF => Token::IF,
            Token::ELSEIF => Token::ELSEIF,
            Token::ELSE => Token::ELSE,
            Token::THEN => Token::THEN,
            Token::WHILE => Token::WHILE,
            Token::DO => Token::DO,
            Token::FOR => Token::FOR,
            Token::IN => Token::IN,
            Token::END => Token::END,
            Token::SPARENT => Token::SPARENT,
            Token::EPARENT => Token::EPARENT,
            Token::CurlSbracket => Token::CurlSbracket,
            Token::CurlEbreacket => Token::CurlEbreacket,
            Token::SquareSbracket => Token::SquareSbracket,
            Token::SquareEbracket => Token::SquareEbracket,
            Token::Func => Token::Func,
        }
    }
}

/// Copies of the tokens `ts`.
pub fn duplicate_tokens(ts: &Vec<Token>) -> (r: Vec<Token>)
    ensures
        token_views(r@) == token_views(ts@),
{
    let mut r: Vec<Token> = Vec::new();
    let mut i: usize = 0;
    while i < ts.len()
        invariant
            i <= ts@.len(),
            r@.len() == i,
            forall|k: int| 0 <= k < i ==> (#[trigger] r@[k])@ == ts@[k]@,
        decreases ts@.len() - i,
    {
        r.push(ts[i].duplicate());
        i = i + 1;
    }
    assert(token_views(r@) =~= token_views(ts@));
    r
}

} // verus!
