//! The lexer: turns a source text into a flat sequence of tokens.
//!
//! The mathematical model is `spec_tokenize`, a recursive function over the
//! character sequence of the source.  The executable scanner `Token::parse`
//! reads one token starting at a character position, and `tokenize` folds it
//! over the whole text; both are proved to compute the model exactly.

use vstd::prelude::*;
use vstd::string::StrSliceExecFns;

verus! {

/// One lexical unit of a source text.
///
/// The characters `{ } ! : ;` are single-character tokens; maximal runs of
/// other non-whitespace characters, and quoted stretches, become
/// `Identifier` tokens.  The trailing variants are reserved punctuation for
/// future markup and are never produced by the lexer.
#[derive(Debug, Clone, PartialEq, Eq)]
pub enum Token {
    Identifier(String),
    OpenBrace,
    CloseBrace,
    Exclamation,
    Colon,
    SemiColon,
    Star,
    DoubleStar,
    Backtick,
    Underscore,
    Tilde,
}

/// The mathematical image of a [`Token`]: the same shape with the word's
/// character sequence in place of the owned string.
#[verifier::ext_equal]
pub enum TokenModel {
    Identifier(Seq<char>),
    OpenBrace,
    CloseBrace,
    Exclamation,
    Colon,
    SemiColon,
    Star,
    DoubleStar,
    Backtick,
    Underscore,
    Tilde,
}

impl View for Token {
    type V = TokenModel;

    open spec fn view(&self) -> TokenModel {
        match self {
            Token::Identifier(s) => TokenModel::Identifier(s@),
            Token::OpenBrace => TokenModel::OpenBrace,
            Token::CloseBrace => TokenModel::CloseBrace,
            Token::Exclamation => TokenModel::Exclamation,
            Token::Colon => TokenModel::Colon,
            Token::SemiColon => TokenModel::SemiColon,
            Token::Star => TokenModel::Star,
            Token::DoubleStar => TokenModel::DoubleStar,
            Token::Backtick => TokenModel::Backtick,
            Token::Underscore => TokenModel::Underscore,
            Token::Tilde => TokenModel::Tilde,
        }
    }
}

/// The token sequence that a sequence of executable tokens stands for.
pub open spec fn token_models(ts: Seq<Token>) -> Seq<TokenModel> {
    ts.map_values(|t: Token| t@)
}

/// Characters that are tokens of their own.
pub open spec fn is_special(c: char) -> bool {
    c == '{' || c == '}' || c == '!' || c == ':' || c == ';'
}

/// Whitespace: separates words and is otherwise insignificant.
pub open spec fn is_space(c: char) -> bool {
    c == ' ' || c == '\n' || c == '\r' || c == '\t'
}

/// Characters that may appear in an unquoted word.
pub open spec fn is_word_char(c: char) -> bool {
    !is_special(c) && !is_space(c) && c != '"'
}

/// First position at or after `i` that does not continue an unquoted word.
pub open spec fn word_end(s: Seq<char>, i: int) -> int
    decreases s.len() - i when 0 <= i <= s.len()
{
    if i == s.len() || !is_word_char(s[i]) {
        i
    } else {
        word_end(s, i + 1)
    }
}

/// First position at or after `i` holding a double quote, or the length of
/// `s` when there is none.
pub open spec fn quote_end(s: Seq<char>, i: int) -> int
    decreases s.len() - i when 0 <= i <= s.len()
{
    if i == s.len() || s[i] == '"' {
        i
    } else {
        quote_end(s, i + 1)
    }
}

/// First position at or after `i` where a `"""` terminator begins, or the
/// length of `s` when there is none (then the result plus three exceeds the
/// length, which marks the terminator as missing).
pub open spec fn triple_end(s: Seq<char>, i: int) -> int
    decreases s.len() - i when 0 <= i <= s.len()
{
    if i + 3 > s.len() {
        s.len() as int
    } else if s[i] == '"' && s[i + 1] == '"' && s[i + 2] == '"' {
        i
    } else {
        triple_end(s, i + 1)
    }
}

pub proof fn lemma_triple_end(s: Seq<char>, i: int)
    requires
        0 <= i <= s.len(),
    ensures
        i <= triple_end(s, i) <= s.len(),
    decreases s.len() - i,
{
    if i + 3 <= s.len() && !(s[i] == '"' && s[i + 1] == '"' && s[i + 2] == '"') {
        lemma_triple_end(s, i + 1);
    }
}

/// The token that begins at or after position `i`, with the position just
/// past it; `None` when the rest of the text holds no further token (either
/// only whitespace remains, or a quoted word runs off the end of the text).
pub open spec fn next_tok(s: Seq<char>, i: int) -> Option<(TokenModel, int)>
    decreases s.len() - i when 0 <= i <= s.len()
{
    if i >= s.len() {
        None
    } else {
        let c = s[i];
        if is_space(c) {
            next_tok(s, i + 1)
        } else if c == '{' {
            Some((TokenModel::OpenBrace, i + 1))
        } else if c == '}' {
            Some((TokenModel::CloseBrace, i + 1))
        } else if c == '!' {
            Some((TokenModel::Exclamation, i + 1))
        } else if c == ':' {
            Some((TokenModel::Colon, i + 1))
        } else if c == ';' {
            Some((TokenModel::SemiColon, i + 1))
        } else if c == '"' {
            if i + 3 <= s.len() && s[i + 1] == '"' && s[i + 2] == '"' {
                let j = triple_end(s, i + 3);
                if j + 3 <= s.len() {
                    Some((TokenModel::Identifier(s.subrange(i + 3, j)), j + 3))
                } else {
                    None
                }
            } else {
                let j = quote_end(s, i + 1);
                if j < s.len() {
                    Some((TokenModel::Identifier(s.subrange(i + 1, j)), j + 1))
                } else {
                    None
                }
            }
        } else {
            Some((TokenModel::Identifier(s.subrange(i, word_end(s, i + 1))), word_end(s, i + 1)))
        }
    }
}

/// All tokens of `s` from position `i` on.
pub open spec fn tokens_from(s: Seq<char>, i: int) -> Seq<TokenModel>
    decreases s.len() - i when 0 <= i <= s.len()
{
    match next_tok(s, i) {
        None => Seq::empty(),
        Some(p) => if i < p.1 <= s.len() {
            seq![p.0] + tokens_from(s, p.1)
        } else {
            Seq::empty()
        },
    }
}

/// The token sequence of a whole source text.
pub open spec fn spec_tokenize(s: Seq<char>) -> Seq<TokenModel> {
    tokens_from(s, 0)
}

impl Token {
    /// Scan the one token that begins at or after character position `pos`
    /// of `src`, returning it with the position just past it.
    #[verifier::loop_isolation(false)]
    pub fn parse(src: &str, pos: usize) -> (r: Option<(Token, usize)>)
        requires
            pos <= src@.len(),
        ensures
            match r {
                None => next_tok(src@, pos as int) is None,
                Some(p) => {
                    &&& next_tok(src@, pos as int) == Some((p.0@, p.1 as int))
                    &&& pos < p.1 <= src@.len()
                },
            },
    {
        let ghost s = src@;
        let n = src.unicode_len();
        let mut i: usize = pos;
        loop
            invariant
                pos <= i <= n,
                n == s.len(),
                s == src@,
                next_tok(s, pos as int) == next_tok(s, i as int),
            decreases n - i,
        {
            if i >= n {
                return None;
            }
            let c = src.get_char(i);
            if c == ' ' || c == '\n' || c == '\r' || c == '\t' {
                i = i + 1;
            } else if c == '{' {
                return Some((Token::OpenBrace, i + 1));
            } else if c == '}' {
                return Some((Token::CloseBrace, i + 1));
            } else if c == '!' {
                return Some((Token::Exclamation, i + 1));
            } else if c == ':' {
                return Some((Token::Colon, i + 1));
            } else if c == ';' {
                return Some((Token::SemiColon, i + 1));
            } else if c == '"' {
                let triple = n - i >= 3 && src.get_char(i + 1) == '"' && src.get_char(i + 2) == '"';
                if triple {
                    let mut k: usize = i + 3;
                    loop
                        invariant
                            i + 3 <= k <= n,
                            n == s.len(),
                            s == src@,
                            i + 3 <= s.len(),
                            triple_end(s, (i + 3) as int) == triple_end(s, k as int),
                        decreases n - k,
                    {
                        if n - k >= 3 {
                            let a = src.get_char(k);
                            if a == '"' {
                                let b = src.get_char(k + 1);
                                let d = src.get_char(k + 2);
                                if b == '"' && d == '"' {
                                    // the terminator begins here
                                    let w = src.substring_char(i + 3, k);
                                    return Some((Token::Identifier(w.to_owned()), k + 3));
                                }
                            }
                            k = k + 1;
                        } else {
                            // no terminator: the stream ends here
                            proof {
                                lemma_triple_end(s, (i + 3) as int);
                            }
                            return None;
                        }
                    }
                } else {
                    let mut k: usize = i + 1;
                    loop
                        invariant
                            i + 1 <= k <= n,
                            n == s.len(),
                            s == src@,
                            quote_end(s, (i + 1) as int) == quote_end(s, k as int),
                        decreases n - k,
                    {
                        if k < n {
                            let a = src.get_char(k);
                            if a == '"' {
                                let w = src.substring_char(i + 1, k);
                                return Some((Token::Identifier(w.to_owned()), k + 1));
                            }
                            k = k + 1;
                        } else {
                            // no closing quote: the stream ends here
                            return None;
                        }
                    }
                }
            } else {
                let mut j: usize = i + 1;
                loop
                    invariant
                        i + 1 <= j <= n,
                        n == s.len(),
                        s == src@,
                        word_end(s, (i + 1) as int) == word_end(s, j as int),
                    decreases n - j,
                {
                    if j < n {
                        let cj = src.get_char(j);
                        let brk = cj == '{' || cj == '}' || cj == '!' || cj == ':' || cj == ';'
                            || cj == ' ' || cj == '\n' || cj == '\r' || cj == '\t' || cj == '"';
                        if brk {
                            break;
                        }
                        j = j + 1;
                    } else {
                        break;
                    }
                }
                let w = src.substring_char(i, j);
                return Some((Token::Identifier(w.to_owned()), j));
            }
        }
    }
}

/// Tokenize a whole source text.  Total: an unterminated quoted word simply
/// ends the stream early.
pub fn tokenize(src: &str) -> (r: Vec<Token>)
    ensures
        token_models(r@) == spec_tokenize(src@),
{
    let ghost s = src@;
    let mut out: Vec<Token> = Vec::new();
    let mut pos: usize = 0;
    proof {
        assert(token_models(out@) + tokens_from(s, 0) =~= spec_tokenize(s));
    }
    loop
        invariant
            pos <= s.len(),
            s == src@,
            token_models(out@) + tokens_from(s, pos as int) == spec_tokenize(s),
        decreases s.len() - pos,
    {
        match Token::parse(src, pos) {
            None => {
                proof {
                    assert(tokens_from(s, pos as int) =~= Seq::<TokenModel>::empty());
                    assert(token_models(out@) =~= token_models(out@) + tokens_from(s, pos as int));
                }
                return out;
            },
            Some(p) => {
                let (t, j) = p;
                proof {
                    assert(tokens_from(s, pos as int) =~= seq![t@] + tokens_from(s, j as int));
                    assert(token_models(out@.push(t)) =~= token_models(out@) + seq![t@]);
                    assert(token_models(out@.push(t)) + tokens_from(s, j as int) =~= token_models(
                        out@,
                    ) + tokens_from(s, pos as int));
                }
                out.push(t);
                pos = j;
            },
        }
    }
}

} // verus!
