use vstd::prelude::*;

use crate::ast::Expression;
use crate::error::{EngineError, SpecError, TokenizeError};
use crate::text::{chars_of, is_space, string_of};
use crate::token::{tokens_view, SpecToken, Token};

verus! {

/// Where the tokenizer stands between two characters of a line.
pub struct LexState {
    /// Tokens emitted so far, in order.
    pub tokens: Seq<SpecToken>,
    /// Characters collected for the token being built.
    pub buf: Seq<char>,
    pub in_string: bool,
    /// The previous character was a backslash.
    pub escape: bool,
    /// A variable name is being collected.
    pub variable: bool,
    /// The previous character was a `/` outside a string and not escaped.
    pub slash: bool,
    /// One space after a comparison operator is to be dropped.
    pub skip_space: bool,
}

pub open spec fn lex_start() -> LexState {
    LexState {
        tokens: seq![],
        buf: seq![],
        in_string: false,
        escape: false,
        variable: false,
        slash: false,
        skip_space: false,
    }
}

/// The characters of `b` without its double quotes.
pub open spec fn strip_quotes(b: Seq<char>) -> Seq<char>
    decreases b.len(),
{
    if b.len() == 0 {
        seq![]
    } else if b.last() == '"' {
        strip_quotes(b.drop_last())
    } else {
        strip_quotes(b.drop_last()).push(b.last())
    }
}

/// A double quote that is not escaped opens a string, ending a variable name
/// that is being collected, or closes the string and emits its text.
pub open spec fn lex_quote(st: LexState) -> LexState {
    if st.in_string {
        LexState {
            tokens: st.tokens.push(SpecToken::Str(strip_quotes(st.buf))),
            buf: seq![],
            in_string: false,
            escape: false,
            slash: false,
            ..st
        }
    } else {
        LexState {
            tokens: if st.variable {
                st.tokens.push(SpecToken::Variable(st.buf))
            } else {
                st.tokens
            },
            buf: seq![],
            in_string: true,
            variable: false,
            escape: false,
            slash: false,
            ..st
        }
    }
}

/// Any other character. A space outside a string that is not escaped
/// separates tokens: it ends a variable name, or else clears the buffer.
/// Otherwise the character joins the buffer, and a buffer that has just become
/// `if`, outside a string and a variable name, is emitted as `If`.
pub open spec fn lex_plain(st: LexState, c: char) -> LexState {
    let st2 = LexState {
        escape: c == '\\' && !st.escape,
        slash: c == '/' && !st.escape && !st.in_string,
        ..st
    };
    if c == ' ' && !st.escape && !st.in_string {
        if st.variable {
            LexState {
                tokens: st.tokens.push(SpecToken::Variable(st.buf)),
                buf: seq![],
                variable: false,
                ..st2
            }
        } else {
            LexState { buf: seq![], ..st2 }
        }
    } else if !st.variable && !st.in_string && st.buf.push(c) == seq!['i', 'f'] {
        LexState { tokens: st.tokens.push(SpecToken::If), buf: seq![], ..st2 }
    } else {
        LexState { buf: st.buf.push(c), ..st2 }
    }
}

/// The end of the line: an open string is an error, and a variable name still
/// being collected is emitted.
pub open spec fn lex_end(st: LexState) -> Result<Seq<SpecToken>, SpecError> {
    if st.in_string {
        Err(SpecError::Tokenize(TokenizeError::UnterminatedString))
    } else if st.variable {
        Ok(st.tokens.push(SpecToken::Variable(st.buf)))
    } else {
        Ok(st.tokens)
    }
}

/// The tokens of `s`, read from position `i` in state `st`.
pub open spec fn lex_from(s: Seq<char>, i: int, st: LexState) -> Result<Seq<SpecToken>, SpecError>
    decreases s.len() - i,
{
    if i < 0 || i >= s.len() {
        lex_end(st)
    } else {
        let c = s[i];
        if st.skip_space && c == ' ' {
            lex_from(s, i + 1, LexState { skip_space: false, slash: false, ..st })
        } else {
            let st = LexState { skip_space: false, ..st };
            let free = !st.escape && !st.in_string;
            if c == '"' && !st.escape {
                lex_from(s, i + 1, lex_quote(st))
            } else if c == '$' && free {
                lex_from(s, i + 1, LexState { buf: seq![], variable: true, slash: false, ..st })
            } else if c == '/' && free && st.slash {
                Ok(st.tokens.push(SpecToken::Comment))
            } else if c == '!' && free {
                if i + 1 >= s.len() {
                    Err(SpecError::Tokenize(TokenizeError::UnexpectedEnd))
                } else if s[i + 1] == '=' {
                    lex_from(
                        s,
                        i + 2,
                        LexState {
                            tokens: st.tokens.push(SpecToken::Condition(false)),
                            buf: seq![],
                            skip_space: true,
                            slash: false,
                            ..st
                        },
                    )
                } else {
                    Err(SpecError::Tokenize(TokenizeError::UnknownComparison(s[i + 1])))
                }
            } else if c == '=' && free {
                if i + 1 >= s.len() {
                    Err(SpecError::Tokenize(TokenizeError::UnexpectedEnd))
                } else if s[i + 1] == '=' {
                    lex_from(
                        s,
                        i + 2,
                        LexState {
                            tokens: st.tokens.push(SpecToken::Condition(true)),
                            buf: seq![],
                            skip_space: true,
                            slash: false,
                            ..st
                        },
                    )
                } else {
                    // A space right after `=` is taken with it; any other
                    // character is read by its own rules.
                    lex_from(
                        s,
                        if s[i + 1] == ' ' {
                            i + 2
                        } else {
                            i + 1
                        },
                        LexState {
                            tokens: st.tokens.push(SpecToken::Assignment),
                            buf: seq![],
                            slash: false,
                            ..st
                        },
                    )
                }
            } else {
                lex_from(s, i + 1, lex_plain(st, c))
            }
        }
    }
}

/// The tokens of a whole line.
pub open spec fn lex(s: Seq<char>) -> Result<Seq<SpecToken>, SpecError> {
    lex_from(s, 0, lex_start())
}

/// The value of a tokenizer result.
pub open spec fn tokens_result_view(r: Result<Vec<Token>, EngineError>) -> Result<
    Seq<SpecToken>,
    SpecError,
> {
    match r {
        Ok(ts) => Ok(tokens_view(ts@)),
        Err(e) => Err(e@),
    }
}

fn push_token(tokens: &mut Vec<Token>, t: Token)
    ensures
        tokens_view(final(tokens)@) == tokens_view(old(tokens)@).push(t@),
{
    tokens.push(t);
    assert(tokens_view(tokens@) =~= tokens_view(old(tokens)@).push(t@));
}

fn is_if(b: &Vec<char>) -> (r: bool)
    ensures
        r == (b@ == seq!['i', 'f']),
{
    if b.len() == 2 && b[0] == 'i' && b[1] == 'f' {
        assert(b@ =~= seq!['i', 'f']);
        true
    } else {
        false
    }
}

fn without_quotes(b: &Vec<char>) -> (r: Vec<char>)
    ensures
        r@ == strip_quotes(b@),
{
    let mut out: Vec<char> = Vec::new();
    let n = b.len();
    for j in 0..n
        invariant
            n == b.len(),
            out@ == strip_quotes(b@.subrange(0, j as int)),
    {
        assert(b@.subrange(0, j + 1).drop_last() =~= b@.subrange(0, j as int));
        if b[j] != '"' {
            out.push(b[j]);
        }
    }
    assert(b@.subrange(0, n as int) =~= b@);
    out
}

/// Splits the characters of one line into tokens.
pub fn tokenize_chars(s: &Vec<char>) -> (r: Result<Vec<Token>, EngineError>)
    ensures
        tokens_result_view(r) == lex(s@),
{
    let n = s.len();
    let mut tokens: Vec<Token> = Vec::new();
    let mut buf: Vec<char> = Vec::new();
    let mut in_string = false;
    let mut escape = false;
    let mut variable = false;
    let mut slash = false;
    let mut skip_space = false;
    let mut i: usize = 0;
    assert(tokens_view(tokens@) =~= seq![]);
    while i < n
        invariant
            i <= n,
            n == s.len(),
            lex_from(
                s@,
                i as int,
                LexState {
                    tokens: tokens_view(tokens@),
                    buf: buf@,
                    in_string,
                    escape,
                    variable,
                    slash,
                    skip_space,
                },
            ) == lex(s@),
        decreases n - i,
    {
        let c = s[i];
        if skip_space && c == ' ' {
            skip_space = false;
            slash = false;
            i = i + 1;
        } else {
            skip_space = false;
            let free = !escape && !in_string;
            if c == '"' && !escape {
                if in_string {
                    let text = without_quotes(&buf);
                    push_token(&mut tokens, Token::String(string_of(&text)));
                    in_string = false;
                } else {
                    if variable {
                        push_token(&mut tokens, Token::Variable(string_of(&buf)));
                        variable = false;
                    }
                    in_string = true;
                }
                buf = Vec::new();
                escape = false;
                slash = false;
                i = i + 1;
            } else if c == '$' && free {
                buf = Vec::new();
                variable = true;
                slash = false;
                i = i + 1;
            } else if c == '/' && free && slash {
                push_token(&mut tokens, Token::Comment);
                return Ok(tokens);
            } else if c == '!' && free {
                if i + 1 >= n {
                    return Err(EngineError::Tokenize(TokenizeError::UnexpectedEnd));
                }
                let d = s[i + 1];
                if d != '=' {
                    return Err(EngineError::Tokenize(TokenizeError::UnknownComparison(d)));
                }
                push_token(&mut tokens, Token::Condition(false));
                buf = Vec::new();
                skip_space = true;
                slash = false;
                i = i + 2;
            } else if c == '=' && free {
                if i + 1 >= n {
                    return Err(EngineError::Tokenize(TokenizeError::UnexpectedEnd));
                }
                let d = s[i + 1];
                buf = Vec::new();
                slash = false;
                if d == '=' {
                    push_token(&mut tokens, Token::Condition(true));
                    skip_space = true;
                    i = i + 2;
                } else {
                    push_token(&mut tokens, Token::Assignment);
                    if d == ' ' {
                        i = i + 2;
                    } else {
                        i = i + 1;
                    }
                }
            } else {
                let escaped = escape;
                slash = c == '/' && !escape && !in_string;
                escape = c == '\\' && !escaped;
                if c == ' ' && !escaped && !in_string {
                    if variable {
                        push_token(&mut tokens, Token::Variable(string_of(&buf)));
                        variable = false;
                    }
                    buf = Vec::new();
                } else {
                    buf.push(c);
                    if !variable && !in_string && is_if(&buf) {
                        push_token(&mut tokens, Token::If);
                        buf = Vec::new();
                    }
                }
                i = i + 1;
            }
        }
    }
    if in_string {
        return Err(EngineError::Tokenize(TokenizeError::UnterminatedString));
    }
    if variable {
        push_token(&mut tokens, Token::Variable(string_of(&buf)));
    }
    Ok(tokens)
}

/// `t` stands, in order, at the front of `r`.
pub open spec fn starts_with(r: Seq<SpecToken>, t: Seq<SpecToken>) -> bool {
    t.len() <= r.len() && forall|k: int| 0 <= k < t.len() ==> r[k] == t[k]
}

/// Tokens are only ever appended: what has been emitted by the time a
/// position of the line is reached stays, in the same order, at the front of
/// the line's tokens.
pub proof fn lemma_tokens_kept_in_order(s: Seq<char>, i: int, st: LexState)
    ensures
        lex_from(s, i, st) is Ok ==> starts_with(lex_from(s, i, st)->Ok_0, st.tokens),
    decreases s.len() - i,
{
    if 0 <= i < s.len() {
        let c = s[i];
        if st.skip_space && c == ' ' {
            lemma_tokens_kept_in_order(s, i + 1, LexState { skip_space: false, slash: false, ..st });
        } else {
            let st1 = LexState { skip_space: false, ..st };
            let free = !st1.escape && !st1.in_string;
            if c == '"' && !st1.escape {
                lemma_tokens_kept_in_order(s, i + 1, lex_quote(st1));
            } else if c == '$' && free {
                lemma_tokens_kept_in_order(
                    s,
                    i + 1,
                    LexState { buf: seq![], variable: true, slash: false, ..st1 },
                );
            } else if c == '/' && free && st1.slash {
            } else if c == '!' && free {
                if i + 1 < s.len() && s[i + 1] == '=' {
                    lemma_tokens_kept_in_order(
                        s,
                        i + 2,
                        LexState {
                            tokens: st1.tokens.push(SpecToken::Condition(false)),
                            buf: seq![],
                            skip_space: true,
                            slash: false,
                            ..st1
                        },
                    );
                }
            } else if c == '=' && free {
                if i + 1 < s.len() {
                    if s[i + 1] == '=' {
                        lemma_tokens_kept_in_order(
                            s,
                            i + 2,
                            LexState {
                                tokens: st1.tokens.push(SpecToken::Condition(true)),
                                buf: seq![],
                                skip_space: true,
                                slash: false,
                                ..st1
                            },
                        );
                    } else {
                        lemma_tokens_kept_in_order(
                            s,
                            if s[i + 1] == ' ' {
                                i + 2
                            } else {
                                i + 1
                            },
                            LexState {
                                tokens: st1.tokens.push(SpecToken::Assignment),
                                buf: seq![],
                                slash: false,
                                ..st1
                            },
                        );
                    }
                }
            } else {
                lemma_tokens_kept_in_order(s, i + 1, lex_plain(st1, c));
            }
        }
    }
}

/// Two slashes at the start of a line make a comment, and whatever follows
/// them is ignored.
pub proof fn lemma_comment_ends_line(rest: Seq<char>)
    ensures
        lex(seq!['/', '/'] + rest) == Ok::<Seq<SpecToken>, SpecError>(seq![SpecToken::Comment]),
{
    let s = seq!['/', '/'] + rest;
    assert(s[0] == '/' && s[1] == '/');
    let st1 = lex_plain(lex_start(), '/');
    assert(st1.slash && st1.tokens == Seq::<SpecToken>::empty());
    assert(lex_from(s, 1, st1) == Ok::<Seq<SpecToken>, SpecError>(seq![SpecToken::Comment]));
}

proof fn lemma_cut_after_comment(s: Seq<char>, t: Seq<char>, n: int, i: int, st: LexState)
    requires
        0 <= i <= n,
        t.len() == n + 2,
        s.len() >= n + 2,
        forall|k: int| 0 <= k < n + 2 ==> s[k] == t[k],
        forall|k: int| 0 <= k < n ==> s[k] != '"' && s[k] != '\\',
        s[n] == '/',
        s[n + 1] == '/',
        !st.in_string,
        !st.escape,
    ensures
        lex_from(s, i, st) == lex_from(t, i, st),
        lex_from(t, i, st) is Ok ==> lex_from(t, i, st)->Ok_0.len() > 0 && lex_from(t, i, st)->Ok_0.last()
            == SpecToken::Comment,
    decreases n - i,
{
    let c = s[i];
    assert(t[i] == c);
    if i == n {
        let st1 = LexState { skip_space: false, ..st };
        if !st1.slash {
            let st2 = lex_plain(st1, c);
            assert(st2.slash && !st2.in_string && !st2.escape && !st2.skip_space);
            assert(t[n + 1] == '/');
            assert(lex_from(s, n + 1, st2) == Ok::<Seq<SpecToken>, SpecError>(
                st2.tokens.push(SpecToken::Comment),
            ));
            assert(lex_from(t, n + 1, st2) == Ok::<Seq<SpecToken>, SpecError>(
                st2.tokens.push(SpecToken::Comment),
            ));
        }
    } else {
        assert(s[i + 1] == t[i + 1]);
        if st.skip_space && c == ' ' {
            lemma_cut_after_comment(s, t, n, i + 1, LexState { skip_space: false, slash: false, ..st });
        } else {
            let st1 = LexState { skip_space: false, ..st };
            if c == '$' {
                lemma_cut_after_comment(
                    s,
                    t,
                    n,
                    i + 1,
                    LexState { buf: seq![], variable: true, slash: false, ..st1 },
                );
            } else if c == '/' && st1.slash {
            } else if c == '!' {
                if s[i + 1] == '=' {
                    lemma_cut_after_comment(
                        s,
                        t,
                        n,
                        i + 2,
                        LexState {
                            tokens: st1.tokens.push(SpecToken::Condition(false)),
                            buf: seq![],
                            skip_space: true,
                            slash: false,
                            ..st1
                        },
                    );
                }
            } else if c == '=' {
                if s[i + 1] == '=' {
                    lemma_cut_after_comment(
                        s,
                        t,
                        n,
                        i + 2,
                        LexState {
                            tokens: st1.tokens.push(SpecToken::Condition(true)),
                            buf: seq![],
                            skip_space: true,
                            slash: false,
                            ..st1
                        },
                    );
                } else {
                    lemma_cut_after_comment(
                        s,
                        t,
                        n,
                        if s[i + 1] == ' ' {
                            i + 2
                        } else {
                            i + 1
                        },
                        LexState {
                            tokens: st1.tokens.push(SpecToken::Assignment),
                            buf: seq![],
                            slash: false,
                            ..st1
                        },
                    );
                }
            } else {
                lemma_cut_after_comment(s, t, n, i + 1, lex_plain(st1, c));
            }
        }
    }
}

/// Whatever follows the first `//` of a line is ignored, where nothing before
/// it is quoted or escaped: the line has the tokens of the line cut right
/// after the two slashes, and when those exist, the last one is `Comment`.
pub proof fn lemma_text_after_comment_ignored(p: Seq<char>, rest: Seq<char>)
    requires
        forall|k: int| 0 <= k < p.len() ==> p[k] != '"' && p[k] != '\\',
    ensures
        lex(p + seq!['/', '/'] + rest) == lex(p + seq!['/', '/']),
        lex(p + seq!['/', '/']) is Ok ==> lex(p + seq!['/', '/'])->Ok_0.len() > 0 && lex(
            p + seq!['/', '/'],
        )->Ok_0.last() == SpecToken::Comment,
{
    let t = p + seq!['/', '/'];
    let s = t + rest;
    let n = p.len() as int;
    assert(forall|k: int| 0 <= k < n + 2 ==> s[k] == t[k]);
    assert(forall|k: int| 0 <= k < n ==> s[k] == p[k]);
    assert(s[n] == '/' && s[n + 1] == '/');
    lemma_cut_after_comment(s, t, n, 0, lex_start());
}

proof fn lemma_strip_quotes_plain(b: Seq<char>)
    requires
        forall|k: int| 0 <= k < b.len() ==> b[k] != '"',
    ensures
        strip_quotes(b) == b,
    decreases b.len(),
{
    if b.len() > 0 {
        lemma_strip_quotes_plain(b.drop_last());
        assert(b.drop_last().push(b.last()) =~= b);
    }
}

proof fn lemma_string_body(s: Seq<char>, i: int, j: int, st: LexState)
    requires
        0 <= i <= j <= s.len(),
        forall|k: int| i <= k < j ==> s[k] != '"' && s[k] != '\\',
        st.in_string,
        !st.escape,
        !st.slash,
        !st.skip_space,
    ensures
        lex_from(s, i, st) == lex_from(s, j, LexState { buf: st.buf + s.subrange(i, j), ..st }),
    decreases j - i,
{
    if i == j {
        assert(st.buf + s.subrange(i, j) =~= st.buf);
    } else {
        let next = lex_plain(st, s[i]);
        assert(next == LexState { buf: st.buf.push(s[i]), ..st });
        lemma_string_body(s, i + 1, j, next);
        assert(st.buf.push(s[i]) + s.subrange(i + 1, j) =~= st.buf + s.subrange(i, j));
    }
}

/// A line `"x" == "y"` or `"x" != "y"`, whose operands hold no quote and no
/// backslash, has exactly one token for each lexeme, in the order they are
/// written.
pub proof fn lemma_quoted_comparison(x: Seq<char>, y: Seq<char>, equal: bool)
    requires
        forall|k: int| 0 <= k < x.len() ==> x[k] != '"' && x[k] != '\\',
        forall|k: int| 0 <= k < y.len() ==> y[k] != '"' && y[k] != '\\',
    ensures
        lex(
            seq!['"'] + x + seq!['"', ' ', if equal {
                '='
            } else {
                '!'
            }, '=', ' ', '"'] + y + seq!['"'],
        ) == Ok::<Seq<SpecToken>, SpecError>(
            seq![SpecToken::Str(x), SpecToken::Condition(equal), SpecToken::Str(y)],
        ),
{
    let o = if equal {
        '='
    } else {
        '!'
    };
    let s = seq!['"'] + x + seq!['"', ' ', o, '=', ' ', '"'] + y + seq!['"'];
    let n = x.len() as int;
    let m = y.len() as int;
    assert(s.len() == n + m + 8);
    assert(forall|k: int| 1 <= k < n + 1 ==> s[k] == x[k - 1]);
    assert(forall|k: int| n + 7 <= k < n + m + 7 ==> s[k] == y[k - n - 7]);
    assert(s[0] == '"' && s[n + 1] == '"' && s[n + 2] == ' ' && s[n + 3] == o);
    assert(s[n + 4] == '=' && s[n + 5] == ' ' && s[n + 6] == '"' && s[n + m + 7] == '"');
    assert(s.subrange(1, n + 1) =~= x);
    assert(s.subrange(n + 7, n + m + 7) =~= y);
    lemma_strip_quotes_plain(x);
    lemma_strip_quotes_plain(y);
    let st0 = lex_start();
    let st1 = lex_quote(st0);
    lemma_string_body(s, 1, n + 1, st1);
    let st2 = LexState { buf: st1.buf + s.subrange(1, n + 1), ..st1 };
    assert(st2.buf =~= x);
    let st3 = lex_quote(st2);
    let t1 = seq![SpecToken::Str(x)];
    assert(st3.tokens =~= t1);
    let st4 = lex_plain(st3, ' ');
    assert(lex_from(s, n + 2, st3) == lex_from(s, n + 3, st4));
    let t2 = t1.push(SpecToken::Condition(equal));
    let st5 = LexState { tokens: t2, buf: seq![], skip_space: true, slash: false, ..st4 };
    assert(lex_from(s, n + 3, st4) == lex_from(s, n + 5, st5));
    let st6 = LexState { skip_space: false, slash: false, ..st5 };
    assert(lex_from(s, n + 5, st5) == lex_from(s, n + 6, st6));
    let st7 = lex_quote(st6);
    assert(lex_from(s, n + 6, st6) == lex_from(s, n + 7, st7));
    lemma_string_body(s, n + 7, n + m + 7, st7);
    let st8 = LexState { buf: st7.buf + s.subrange(n + 7, n + m + 7), ..st7 };
    assert(st8.buf =~= y);
    let st9 = lex_quote(st8);
    assert(lex_from(s, n + m + 8, st9) == Ok::<Seq<SpecToken>, SpecError>(st9.tokens));
    assert(st9.tokens =~= seq![SpecToken::Str(x), SpecToken::Condition(equal), SpecToken::Str(y)]);
}

/// A character that can stand in a variable name without any rule of the
/// tokenizer acting on it, and that is not white space.
pub open spec fn is_name_char(c: char) -> bool {
    c != '"' && c != '$' && c != '/' && c != '!' && c != '=' && c != '\\' && !is_space(c)
}

proof fn lemma_name_body(s: Seq<char>, i: int, j: int, st: LexState)
    requires
        0 <= i <= j <= s.len(),
        forall|k: int| i <= k < j ==> is_name_char(s[k]),
        st.variable,
        !st.in_string,
        !st.escape,
        !st.slash,
        !st.skip_space,
    ensures
        lex_from(s, i, st) == lex_from(s, j, LexState { buf: st.buf + s.subrange(i, j), ..st }),
    decreases j - i,
{
    if i == j {
        assert(st.buf + s.subrange(i, j) =~= st.buf);
    } else {
        assert(s[i] != ' ');
        let next = lex_plain(st, s[i]);
        assert(next == LexState { buf: st.buf.push(s[i]), ..st });
        lemma_name_body(s, i + 1, j, next);
        assert(st.buf.push(s[i]) + s.subrange(i + 1, j) =~= st.buf + s.subrange(i, j));
    }
}

/// A line `$name` is the one token `Variable(name)`.
pub proof fn lemma_variable_line(x: Seq<char>)
    requires
        forall|k: int| 0 <= k < x.len() ==> is_name_char(x[k]),
    ensures
        lex(seq!['$'] + x) == Ok::<Seq<SpecToken>, SpecError>(seq![SpecToken::Variable(x)]),
{
    let s = seq!['$'] + x;
    assert(forall|k: int| 1 <= k < s.len() ==> s[k] == x[k - 1]);
    let st1 = LexState { buf: seq![], variable: true, slash: false, ..lex_start() };
    assert(lex(s) == lex_from(s, 1, st1));
    lemma_name_body(s, 1, s.len() as int, st1);
    assert(st1.buf + s.subrange(1, s.len() as int) =~= x);
    assert(seq![SpecToken::Variable(x)] =~= Seq::<SpecToken>::empty().push(SpecToken::Variable(x)));
}

impl Expression {
    /// Splits one line into tokens, left to right.
    pub fn tokenize_line(string: String) -> (r: Result<Vec<Token>, EngineError>)
        ensures
            tokens_result_view(r) == lex(string@),
    {
        let cs = chars_of(string.as_str());
        tokenize_chars(&cs)
    }
}

} // verus!
