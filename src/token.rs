use vstd::prelude::*;

verus! {

/// One lexical unit of a line.
#[derive(Debug, Clone, PartialEq, Eq)]
pub enum Token {
    /// `$name`: a variable reference or an assignment target.
    Variable(String),
    /// `"text"`: a string literal, without its quotes.
    String(String),
    If,
    Assignment,
    /// `==` (`true`) or `!=` (`false`).
    Condition(bool),
    /// `//`: the rest of the line is ignored.
    Comment,
}

/// The mathematical value of a [`Token`].
pub enum SpecToken {
    Variable(Seq<char>),
    Str(Seq<char>),
    If,
    Assignment,
    Condition(bool),
    Comment,
}

impl View for Token {
    type V = SpecToken;

    open spec fn view(&self) -> SpecToken {
        match self {
            Token::Variable(n) => SpecToken::Variable(n@),
            Token::String(s) => SpecToken::Str(s@),
            Token::If => SpecToken::If,
            Token::Assignment => SpecToken::Assignment,
            Token::Condition(b) => SpecToken::Condition(*b),
            Token::Comment => SpecToken::Comment,
        }
    }
}

/// The values of a sequence of tokens.
pub open spec fn tokens_view(ts: Seq<Token>) -> Seq<SpecToken> {
    ts.map_values(|t: Token| t@)
}

} // verus!
