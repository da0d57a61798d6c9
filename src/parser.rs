use vstd::prelude::*;

use crate::ast::{Condition, Expression, SpecCondition, SpecExpr, SpecValue, Value};
use crate::error::{EngineError, ParseError, SpecError};
use crate::lexer::lex;
use crate::token::{tokens_view, SpecToken, Token};

verus! {

/// The operand that a token stands for, if it is one.
pub open spec fn value_of(t: SpecToken) -> Option<SpecValue> {
    match t {
        SpecToken::Str(s) => Some(SpecValue::Literal(s)),
        SpecToken::Variable(n) => Some(SpecValue::Variable(n)),
        _ => None,
    }
}

/// The expression that starts at a variable named `n`, whose other tokens
/// start at position `i`.
pub open spec fn parse_variable_at(ts: Seq<SpecToken>, i: int, n: Seq<char>) -> Result<
    SpecExpr,
    SpecError,
> {
    if i >= ts.len() {
        Ok(SpecExpr::VariableValue(n))
    } else if ts[i] != SpecToken::Assignment {
        Err(SpecError::Parse(ParseError::ExpectedAssignment))
    } else if i + 1 >= ts.len() {
        Err(SpecError::Parse(ParseError::ExpectedAssignedValue))
    } else {
        match value_of(ts[i + 1]) {
            Some(v) => Ok(SpecExpr::VariableAssignment(n, v)),
            None => Err(SpecError::Parse(ParseError::ExpectedAssignedValue)),
        }
    }
}

/// The expression held by the tokens of `ts` from position `i` on.
pub open spec fn parse_at(ts: Seq<SpecToken>, i: int) -> Result<SpecExpr, SpecError>
    decreases ts.len() - i,
{
    if i < 0 || i >= ts.len() {
        Err(SpecError::Parse(ParseError::NoTokens))
    } else {
        match ts[i] {
            SpecToken::Comment => Ok(SpecExpr::Comment),
            SpecToken::Str(s) => Ok(SpecExpr::StringLiteral(s)),
            SpecToken::Variable(n) => parse_variable_at(ts, i + 1, n),
            SpecToken::If => if i + 1 >= ts.len() {
                Err(SpecError::Parse(ParseError::MissingValue))
            } else {
                match value_of(ts[i + 1]) {
                    None => Err(SpecError::Parse(ParseError::ExpectedValue)),
                    Some(a) => if i + 2 >= ts.len() {
                        Err(SpecError::Parse(ParseError::ExpectedComparison))
                    } else {
                        match ts[i + 2] {
                            SpecToken::Condition(equal) => if i + 3 >= ts.len() {
                                Err(SpecError::Parse(ParseError::MissingValue))
                            } else {
                                match value_of(ts[i + 3]) {
                                    None => Err(SpecError::Parse(ParseError::ExpectedValue)),
                                    Some(b) => match parse_at(ts, i + 4) {
                                        Ok(e) => Ok(
                                            SpecExpr::IfStatement(
                                                if equal {
                                                    SpecCondition::IsEqual(a, b)
                                                } else {
                                                    SpecCondition::IsNotEqual(a, b)
                                                },
                                                Box::new(e),
                                            ),
                                        ),
                                        Err(e) => Err(e),
                                    },
                                }
                            },
                            _ => Err(SpecError::Parse(ParseError::ExpectedComparison)),
                        }
                    },
                }
            },
            _ => Err(SpecError::Parse(ParseError::UnexpectedToken)),
        }
    }
}

/// The expression held by a whole token sequence.
pub open spec fn parse(ts: Seq<SpecToken>) -> Result<SpecExpr, SpecError> {
    parse_at(ts, 0)
}

/// The expression held by a line of text.
pub open spec fn parse_line(s: Seq<char>) -> Result<SpecExpr, SpecError> {
    match lex(s) {
        Ok(ts) => parse(ts),
        Err(e) => Err(e),
    }
}

/// The value of a parser result.
pub open spec fn expr_result_view(r: Result<Expression, EngineError>) -> Result<
    SpecExpr,
    SpecError,
> {
    match r {
        Ok(e) => Ok(e@),
        Err(e) => Err(e@),
    }
}

fn value_at(tokens: &Vec<Token>, i: usize) -> (r: Option<Value>)
    requires
        i < tokens.len(),
    ensures
        value_of(tokens[i as int]@) == match r {
            Some(v) => Some(v@),
            None => None::<SpecValue>,
        },
{
    match &tokens[i] {
        Token::String(s) => Some(Value::Literal(s.clone())),
        Token::Variable(n) => Some(Value::Variable(n.clone())),
        _ => None,
    }
}

impl Expression {
    /// Tokenizes a line and parses its tokens.
    pub fn from_string(string: String) -> (r: Result<Self, EngineError>)
        ensures
            expr_result_view(r) == parse_line(string@),
    {
        let tokens = Self::tokenize_line(string)?;
        Self::from_tokens(tokens)
    }

    /// Builds the expression that a sequence of tokens holds.
    pub fn from_tokens(tokens: Vec<Token>) -> (r: Result<Self, EngineError>)
        ensures
            expr_result_view(r) == parse(tokens_view(tokens@)),
    {
        Self::parse_from(&tokens, 0)
    }

    fn parse_from(tokens: &Vec<Token>, start: usize) -> (r: Result<Self, EngineError>)
        requires
            start <= tokens.len(),
        ensures
            expr_result_view(r) == parse_at(tokens_view(tokens@), start as int),
        decreases tokens.len() - start,
    {
        if start >= tokens.len() {
            return Err(EngineError::Parse(ParseError::NoTokens));
        }
        match &tokens[start] {
            Token::Comment => Ok(Self::Comment),
            Token::String(s) => Ok(Self::StringLiteral(s.clone())),
            Token::Variable(n) => Self::parse_variable(tokens, start + 1, n.clone()),
            Token::If => Self::parse_if_expression(tokens, start + 1),
            _ => Err(EngineError::Parse(ParseError::UnexpectedToken)),
        }
    }

    fn parse_variable(tokens: &Vec<Token>, start: usize, variable_name: String) -> (r: Result<
        Self,
        EngineError,
    >)
        requires
            start <= tokens.len(),
        ensures
            expr_result_view(r) == parse_variable_at(
                tokens_view(tokens@),
                start as int,
                variable_name@,
            ),
    {
        if start >= tokens.len() {
            return Ok(Self::VariableValue(variable_name));
        }
        match &tokens[start] {
            Token::Assignment => {},
            _ => {
                return Err(EngineError::Parse(ParseError::ExpectedAssignment));
            },
        }
        if start + 1 >= tokens.len() {
            return Err(EngineError::Parse(ParseError::ExpectedAssignedValue));
        }
        match value_at(tokens, start + 1) {
            Some(v) => Ok(Self::VariableAssignment(variable_name, v)),
            None => Err(EngineError::Parse(ParseError::ExpectedAssignedValue)),
        }
    }

    fn parse_if_expression(tokens: &Vec<Token>, start: usize) -> (r: Result<Self, EngineError>)
        requires
            1 <= start <= tokens.len(),
            tokens_view(tokens@)[start - 1] == SpecToken::If,
        ensures
            expr_result_view(r) == parse_at(tokens_view(tokens@), start - 1),
        decreases tokens.len() - start,
    {
        if start >= tokens.len() {
            return Err(EngineError::Parse(ParseError::MissingValue));
        }
        let first = match value_at(tokens, start) {
            Some(v) => v,
            None => {
                return Err(EngineError::Parse(ParseError::ExpectedValue));
            },
        };
        if start + 1 >= tokens.len() {
            return Err(EngineError::Parse(ParseError::ExpectedComparison));
        }
        let equal = match &tokens[start + 1] {
            Token::Condition(b) => *b,
            _ => {
                return Err(EngineError::Parse(ParseError::ExpectedComparison));
            },
        };
        if start + 2 >= tokens.len() {
            return Err(EngineError::Parse(ParseError::MissingValue));
        }
        let second = match value_at(tokens, start + 2) {
            Some(v) => v,
            None => {
                return Err(EngineError::Parse(ParseError::ExpectedValue));
            },
        };
        let nested = Self::parse_from(tokens, start + 3)?;
        let condition = if equal {
            Condition::IsEqual(first, second)
        } else {
            Condition::IsNotEqual(first, second)
        };
        Ok(Self::IfStatement(condition, Box::new(nested)))
    }
}

} // verus!
