//! The tree parser: builds a nested document tree out of the token stream.
//!
//! The grammar: a node is either a maximal run of words (a text run), or a
//! section `!` *name?* (`:`|`;`) *kind-keyword?* `{` *nodes* `}`.  A `;`
//! in place of the `:` makes the section a comment whose body is parsed
//! for balance but discarded.
//!
//! The mathematical model is the mutually recursive family
//! `spec_parse_line` / `spec_parse_section` / `spec_parse_block` /
//! `spec_parse_all` over token models; every executable parsing function
//! is proved to compute the corresponding model function.

use vstd::prelude::*;
use vstd::string::StringExecFns;

use crate::lex::{Token, TokenModel, token_models, tokenize, spec_tokenize};
use crate::phrase::Phrase;

verus! {

/// What a section's kind selects is rendering behaviour, not parsing
/// structure: all kinds parse identically.
#[derive(Debug, Clone, Copy, PartialEq, Eq, Structural)]
pub enum SectionKind {
    Section,
    Paragraph,
    Metadata,
    Link,
    Image,
    Code,
}

/// A portion of a parsed document: a section with optional name, kind and
/// children; a text run; or a comment (body discarded during parsing).
#[derive(Debug, PartialEq, Eq)]
pub enum LeyLine {
    Section { name: Option<Phrase>, kind: SectionKind, contents: LeyLines },
    Text { contents: Phrase },
    Comment,
}

/// An ordered sequence of document nodes.
#[derive(Debug, PartialEq, Eq)]
pub struct LeyLines(pub Vec<LeyLine>);

/// The mathematical image of a [`LeyLine`]: names and words as character
/// sequences, children as a `Seq`.
#[verifier::ext_equal]
pub enum LineModel {
    Section { name: Option<Seq<Seq<char>>>, kind: SectionKind, contents: Seq<LineModel> },
    Text { contents: Seq<Seq<char>> },
    Comment,
}

/// A document-parse-time failure.
#[derive(Debug, Clone, PartialEq, Eq)]
pub enum ParseError {
    EndOfFile,
    UnclosedSection,
    UnexpectedCloseBracket,
    UnknownSection(String),
    ExpectedColon,
    ExpectedOpenBrace,
    ExpectedString,
}

/// The mathematical image of a [`ParseError`].
#[verifier::ext_equal]
pub enum ErrModel {
    EndOfFile,
    UnclosedSection,
    UnexpectedCloseBracket,
    UnknownSection(Seq<char>),
    ExpectedColon,
    ExpectedOpenBrace,
    ExpectedString,
}

impl View for ParseError {
    type V = ErrModel;

    open spec fn view(&self) -> ErrModel {
        match self {
            ParseError::EndOfFile => ErrModel::EndOfFile,
            ParseError::UnclosedSection => ErrModel::UnclosedSection,
            ParseError::UnexpectedCloseBracket => ErrModel::UnexpectedCloseBracket,
            ParseError::UnknownSection(s) => ErrModel::UnknownSection(s@),
            ParseError::ExpectedColon => ErrModel::ExpectedColon,
            ParseError::ExpectedOpenBrace => ErrModel::ExpectedOpenBrace,
            ParseError::ExpectedString => ErrModel::ExpectedString,
        }
    }
}

/// The stable human-readable description of a parse failure.
pub open spec fn spec_message(e: ErrModel) -> Seq<char> {
    match e {
        ErrModel::EndOfFile => "Unexpected end of file"@,
        ErrModel::UnclosedSection => "Unclosed Section, Expected `}`"@,
        ErrModel::UnexpectedCloseBracket => "Unexpected `}`"@,
        ErrModel::UnknownSection(s) => "Unknown Section Kind `"@ + s + "`"@,
        ErrModel::ExpectedColon => "Expected `:`"@,
        ErrModel::ExpectedOpenBrace => "Expected `{`"@,
        ErrModel::ExpectedString => "Expected a string"@,
    }
}

impl ParseError {
    /// The error's human-readable message.
    pub fn message(&self) -> (r: String)
        ensures
            r@ == spec_message(self@),
    {
        match self {
            ParseError::EndOfFile => String::from_str("Unexpected end of file"),
            ParseError::UnclosedSection => String::from_str("Unclosed Section, Expected `}`"),
            ParseError::UnexpectedCloseBracket => String::from_str("Unexpected `}`"),
            ParseError::UnknownSection(s) => {
                let mut m = String::from_str("Unknown Section Kind `");
                m.append(s.as_str());
                m.append("`");
                m
            },
            ParseError::ExpectedColon => String::from_str("Expected `:`"),
            ParseError::ExpectedOpenBrace => String::from_str("Expected `{`"),
            ParseError::ExpectedString => String::from_str("Expected a string"),
        }
    }
}

/// The tree model of one executable node.
pub open spec fn line_model(l: LeyLine) -> LineModel
    decreases l,
{
    match l {
        LeyLine::Section { name, kind, contents } => LineModel::Section {
            name: match name {
                Some(p) => Some(p@),
                None => None,
            },
            kind,
            contents: seq_lines_model(contents.0@),
        },
        LeyLine::Text { contents } => LineModel::Text { contents: contents@ },
        LeyLine::Comment => LineModel::Comment,
    }
}

/// The tree models of a sequence of executable nodes, in order.
pub open spec fn seq_lines_model(s: Seq<LeyLine>) -> Seq<LineModel>
    decreases s,
{
    if s.len() == 0 {
        Seq::empty()
    } else {
        seq![line_model(s[0])] + seq_lines_model(s.subrange(1, s.len() as int))
    }
}

/// The tree models of a [`LeyLines`] value.
pub open spec fn lines_model(ls: LeyLines) -> Seq<LineModel> {
    seq_lines_model(ls.0@)
}

pub proof fn lemma_seq_lines_model_index(s: Seq<LeyLine>)
    ensures
        seq_lines_model(s).len() == s.len(),
        forall|i: int| 0 <= i < s.len() ==> seq_lines_model(s)[i] == line_model(s[i]),
    decreases s.len(),
{
    if s.len() > 0 {
        lemma_seq_lines_model_index(s.subrange(1, s.len() as int));
    }
}

pub proof fn lemma_seq_lines_model_push(s: Seq<LeyLine>, l: LeyLine)
    ensures
        seq_lines_model(s.push(l)) == seq_lines_model(s) + seq![line_model(l)],
    decreases s.len(),
{
    if s.len() == 0 {
        assert(s.push(l).subrange(1, s.push(l).len() as int) =~= Seq::<LeyLine>::empty());
        assert(s.push(l)[0] == l);
        assert(seq_lines_model(Seq::<LeyLine>::empty()) == Seq::<LineModel>::empty());
        assert(seq_lines_model(s.push(l)) == seq![line_model(l)] + Seq::<LineModel>::empty());
        assert(seq_lines_model(s.push(l)) =~= seq_lines_model(s) + seq![line_model(l)]);
    } else {
        lemma_seq_lines_model_push(s.subrange(1, s.len() as int), l);
        assert(s.push(l)[0] == s[0]);
        assert(s.push(l).subrange(1, s.push(l).len() as int) =~= s.subrange(1, s.len() as int).push(
            l,
        ));
        assert(seq_lines_model(s.push(l)) == seq![line_model(s[0])] + seq_lines_model(
            s.subrange(1, s.len() as int).push(l),
        ));
        assert(seq_lines_model(s.push(l)) == seq![line_model(s[0])] + (seq_lines_model(
            s.subrange(1, s.len() as int),
        ) + seq![line_model(l)]));
        assert(seq_lines_model(s.push(l)) =~= seq_lines_model(s) + seq![line_model(l)]);
    }
}

/// The section kind named by a keyword, if any.
pub open spec fn kind_of_keyword(w: Seq<char>) -> Option<SectionKind> {
    if w == "section"@ {
        Some(SectionKind::Section)
    } else if w == "paragraph"@ || w == "para"@ || w == "p"@ {
        Some(SectionKind::Paragraph)
    } else if w == "meta"@ || w == "metadata"@ {
        Some(SectionKind::Metadata)
    } else if w == "link"@ {
        Some(SectionKind::Link)
    } else if w == "image"@ || w == "img"@ {
        Some(SectionKind::Image)
    } else if w == "code"@ || w == "lang"@ {
        Some(SectionKind::Code)
    } else {
        None
    }
}

/// The maximal run of word tokens at the head of the stream.
pub open spec fn leading_words(toks: Seq<TokenModel>) -> Seq<Seq<char>>
    decreases toks.len(),
{
    if toks.len() == 0 {
        Seq::empty()
    } else {
        match toks[0] {
            TokenModel::Identifier(w) => seq![w] + leading_words(
                toks.subrange(1, toks.len() as int),
            ),
            _ => Seq::empty(),
        }
    }
}

pub proof fn lemma_leading_words_len(toks: Seq<TokenModel>)
    ensures
        leading_words(toks).len() <= toks.len(),
    decreases toks.len(),
{
    if toks.len() > 0 {
        lemma_leading_words_len(toks.subrange(1, toks.len() as int));
    }
}

/// Parse one node at the head of the stream, returning it with the
/// remaining tokens.
pub open spec fn spec_parse_line(toks: Seq<TokenModel>) -> Result<
    (LineModel, Seq<TokenModel>),
    ErrModel,
>
    decreases toks.len(), 0nat,
{
    if toks.len() == 0 {
        Err(ErrModel::EndOfFile)
    } else {
        match toks[0] {
            TokenModel::Identifier(w) => {
                let ws = leading_words(toks);
                proof {
                    lemma_leading_words_len(toks);
                }
                Ok((LineModel::Text { contents: ws }, toks.skip(ws.len() as int)))
            },
            TokenModel::Exclamation => spec_parse_section(toks.subrange(1, toks.len() as int)),
            _ => Err(ErrModel::UnexpectedCloseBracket),
        }
    }
}

/// Parse the remainder of a section after its `!`: optional name phrase,
/// `:` or `;`, optional kind keyword, brace-delimited children.
pub open spec fn spec_parse_section(toks: Seq<TokenModel>) -> Result<
    (LineModel, Seq<TokenModel>),
    ErrModel,
>
    decreases toks.len(), 1nat,
{
    proof {
        lemma_leading_words_len(toks);
    }
    let names = leading_words(toks);
    let name: Option<Seq<Seq<char>>> = if names.len() == 0 {
        None
    } else {
        Some(names)
    };
    let rest1 = toks.skip(names.len() as int);
    if rest1.len() == 0 {
        Err(ErrModel::EndOfFile)
    } else {
        match rest1[0] {
            TokenModel::Colon | TokenModel::SemiColon => {
                let comment = rest1[0] is SemiColon;
                let rest2 = rest1.subrange(1, rest1.len() as int);
                if rest2.len() == 0 {
                    Err(ErrModel::EndOfFile)
                } else {
                    match rest2[0] {
                        TokenModel::Identifier(kw) => {
                            let rest3 = rest2.subrange(1, rest2.len() as int);
                            if rest3.len() == 0 {
                                Err(ErrModel::EndOfFile)
                            } else if !(rest3[0] is OpenBrace) {
                                Err(ErrModel::ExpectedOpenBrace)
                            } else {
                                let body = rest3.subrange(1, rest3.len() as int);
                                if comment {
                                    match spec_parse_block(body) {
                                        Ok(p) => Ok((LineModel::Comment, p.1)),
                                        Err(e) => Err(e),
                                    }
                                } else {
                                    match kind_of_keyword(kw) {
                                        None => Err(ErrModel::UnknownSection(kw)),
                                        Some(kind) => match spec_parse_block(body) {
                                            Ok(p) => Ok(
                                                (
                                                    LineModel::Section {
                                                        name,
                                                        kind,
                                                        contents: p.0,
                                                    },
                                                    p.1,
                                                ),
                                            ),
                                            Err(e) => Err(e),
                                        },
                                    }
                                }
                            }
                        },
                        TokenModel::OpenBrace => {
                            let kind = if name is None {
                                SectionKind::Paragraph
                            } else {
                                SectionKind::Section
                            };
                            let body = rest2.subrange(1, rest2.len() as int);
                            match spec_parse_block(body) {
                                Ok(p) => Ok(
                                    (
                                        if comment {
                                            LineModel::Comment
                                        } else {
                                            LineModel::Section { name, kind, contents: p.0 }
                                        },
                                        p.1,
                                    ),
                                ),
                                Err(e) => Err(e),
                            }
                        },
                        _ => Err(ErrModel::ExpectedOpenBrace),
                    }
                }
            },
            _ => Err(ErrModel::ExpectedColon),
        }
    }
}

/// Parse nodes up to and including a closing brace.  Running out of tokens
/// first is the unclosed-section condition.
pub open spec fn spec_parse_block(toks: Seq<TokenModel>) -> Result<
    (Seq<LineModel>, Seq<TokenModel>),
    ErrModel,
>
    decreases toks.len(), 2nat,
{
    if toks.len() == 0 {
        Err(ErrModel::UnclosedSection)
    } else if toks[0] is CloseBrace {
        Ok((Seq::empty(), toks.subrange(1, toks.len() as int)))
    } else {
        match spec_parse_line(toks) {
            Err(e) => Err(e),
            Ok(p) => if p.1.len() < toks.len() {
                match spec_parse_block(p.1) {
                    Err(e) => Err(e),
                    Ok(q) => Ok((seq![p.0] + q.0, q.1)),
                }
            } else {
                Err(ErrModel::UnclosedSection)
            },
        }
    }
}

/// Parse a whole token stream as a sequence of top-level nodes.
pub open spec fn spec_parse_all(toks: Seq<TokenModel>) -> Result<Seq<LineModel>, ErrModel>
    decreases toks.len(), 3nat,
{
    if toks.len() == 0 {
        Ok(Seq::empty())
    } else {
        match spec_parse_line(toks) {
            Err(e) => Err(e),
            Ok(p) => if p.1.len() < toks.len() {
                match spec_parse_all(p.1) {
                    Err(e) => Err(e),
                    Ok(ls) => Ok(seq![p.0] + ls),
                }
            } else {
                Err(ErrModel::UnclosedSection)
            },
        }
    }
}

/// The token models of a token vector from position `pos` on: the part of
/// the stream an executable parser at position `pos` still sees.
pub open spec fn tok_suffix(ts: Seq<Token>, pos: int) -> Seq<TokenModel> {
    token_models(ts).skip(pos)
}

pub proof fn lemma_suffix(ts: Seq<Token>, p: int)
    requires
        0 <= p <= ts.len(),
    ensures
        tok_suffix(ts, p).len() == ts.len() - p,
        p < ts.len() ==> tok_suffix(ts, p)[0] == ts[p]@,
        p < ts.len() ==> tok_suffix(ts, p).subrange(1, tok_suffix(ts, p).len() as int)
            == tok_suffix(ts, p + 1),
{
    assert(token_models(ts).len() == ts.len());
    if p < ts.len() {
        assert(tok_suffix(ts, p).subrange(1, tok_suffix(ts, p).len() as int) =~= tok_suffix(
            ts,
            p + 1,
        ));
    }
}

pub proof fn lemma_suffix_skip(ts: Seq<Token>, p: int, k: int)
    requires
        0 <= p,
        0 <= k,
        p + k <= ts.len(),
    ensures
        tok_suffix(ts, p).skip(k) == tok_suffix(ts, p + k),
{
    assert(tok_suffix(ts, p).skip(k) =~= tok_suffix(ts, p + k));
}

impl SectionKind {
    /// The section kind named by a keyword; an unknown keyword is reported
    /// with the offending word.
    pub fn new(from: &str) -> (r: Result<SectionKind, ParseError>)
        ensures
            match r {
                Ok(k) => kind_of_keyword(from@) == Some(k),
                Err(e) => kind_of_keyword(from@) is None && e@ == ErrModel::UnknownSection(from@),
            },
    {
        let w = from.to_owned();
        if w == String::from_str("section") {
            Ok(SectionKind::Section)
        } else if w == String::from_str("paragraph") || w == String::from_str("para") || w
            == String::from_str("p") {
            Ok(SectionKind::Paragraph)
        } else if w == String::from_str("meta") || w == String::from_str("metadata") {
            Ok(SectionKind::Metadata)
        } else if w == String::from_str("link") {
            Ok(SectionKind::Link)
        } else if w == String::from_str("image") || w == String::from_str("img") {
            Ok(SectionKind::Image)
        } else if w == String::from_str("code") || w == String::from_str("lang") {
            Ok(SectionKind::Code)
        } else {
            Err(ParseError::UnknownSection(w))
        }
    }
}

/// A cursor over a parsed token vector: the tokens with the position of the
/// next one to be consumed.
#[derive(Debug)]
pub struct TokenIter {
    pub tokens: Vec<Token>,
    pub pos: usize,
}

impl TokenIter {
    /// The cursor has not run past the end.
    pub open spec fn wf(&self) -> bool {
        self.pos <= self.tokens.len()
    }

    /// The token models not yet consumed.
    pub open spec fn remaining(&self) -> Seq<TokenModel> {
        tok_suffix(self.tokens@, self.pos as int)
    }

    /// A cursor at the start of a token vector.
    pub fn new(tokens: Vec<Token>) -> (r: TokenIter)
        ensures
            r.wf(),
            r.remaining() == token_models(tokens@),
            r.tokens@ == tokens@,
    {
        let r = TokenIter { tokens, pos: 0 };
        proof {
            assert(r.remaining() =~= token_models(r.tokens@));
        }
        r
    }

    /// The next token, without consuming it.
    pub fn peek(&self) -> (r: Option<&Token>)
        requires
            self.wf(),
        ensures
            (r is Some) == (self.pos < self.tokens.len()),
            match r {
                Some(t) => *t == self.tokens@[self.pos as int],
                None => true,
            },
    {
        if self.pos < self.tokens.len() {
            Some(&self.tokens[self.pos])
        } else {
            None
        }
    }

    /// Consume one token.
    pub fn advance(&mut self)
        requires
            old(self).wf(),
            old(self).pos < old(self).tokens.len(),
        ensures
            final(self).wf(),
            final(self).tokens == old(self).tokens,
            final(self).pos == old(self).pos + 1,
    {
        self.pos = self.pos + 1;
    }
}

/// Collect the maximal run of word tokens beginning at `pos`.
fn words_at(tokens: &Vec<Token>, pos: usize) -> (r: (Vec<String>, usize))
    requires
        pos <= tokens.len(),
    ensures
        ({
            let (ws, p2) = r;
            &&& pos <= p2 <= tokens.len()
            &&& p2 == pos + ws@.len()
            &&& ws.deep_view() == leading_words(tok_suffix(tokens@, pos as int))
        }),
{
    let ghost ts = tokens@;
    let mut ws: Vec<String> = Vec::new();
    let mut p = pos;
    proof {
        assert(ws.deep_view() + leading_words(tok_suffix(ts, pos as int)) =~= leading_words(
            tok_suffix(ts, pos as int),
        ));
    }
    loop
        invariant
            pos <= p <= tokens.len(),
            ts == tokens@,
            ws@.len() == p - pos,
            leading_words(tok_suffix(ts, pos as int)) == ws.deep_view() + leading_words(
                tok_suffix(ts, p as int),
            ),
        decreases tokens@.len() - p,
    {
        proof {
            lemma_suffix(ts, p as int);
        }
        if p >= tokens.len() {
            proof {
                assert(leading_words(tok_suffix(ts, p as int)) =~= Seq::<Seq<char>>::empty());
                assert(ws.deep_view() + Seq::<Seq<char>>::empty() =~= ws.deep_view());
            }
            return (ws, p);
        }
        match &tokens[p] {
            Token::Identifier(s) => {
                let w = s.clone();
                let ghost dv = ws.deep_view();
                proof {
                    let suf = tok_suffix(ts, p as int);
                    assert(suf[0] == TokenModel::Identifier(w@));
                    assert(leading_words(suf) == seq![w@] + leading_words(
                        tok_suffix(ts, p + 1),
                    ));
                    assert((dv + seq![w@]) + leading_words(tok_suffix(ts, p + 1)) =~= dv + (
                    seq![w@] + leading_words(tok_suffix(ts, p + 1))));
                }
                ws.push(w);
                p = p + 1;
                proof {
                    assert(ws.deep_view() =~= dv + seq![w@]);
                }
            },
            _ => {
                proof {
                    assert(leading_words(tok_suffix(ts, p as int)) =~= Seq::<Seq<char>>::empty());
                    assert(ws.deep_view() + Seq::<Seq<char>>::empty() =~= ws.deep_view());
                }
                return (ws, p);
            },
        }
    }
}

/// Parse one node beginning at `pos`; computes `spec_parse_line` on the
/// remaining stream.
pub(crate) fn parse_line_at(tokens: &Vec<Token>, pos: usize) -> (r: Result<
    (LeyLine, usize),
    ParseError,
>)
    requires
        pos <= tokens.len(),
    ensures
        match r {
            Ok(res) => {
                &&& pos < res.1 <= tokens.len()
                &&& spec_parse_line(tok_suffix(tokens@, pos as int)) == Ok::<
                    (LineModel, Seq<TokenModel>),
                    ErrModel,
                >((line_model(res.0), tok_suffix(tokens@, res.1 as int)))
            },
            Err(e) => spec_parse_line(tok_suffix(tokens@, pos as int)) == Err::<
                (LineModel, Seq<TokenModel>),
                ErrModel,
            >(e@),
        },
    decreases tokens@.len() - pos, 0nat,
{
    let ghost ts = tokens@;
    let ghost toks = tok_suffix(ts, pos as int);
    proof {
        lemma_suffix(ts, pos as int);
    }
    if pos >= tokens.len() {
        return Err(ParseError::EndOfFile);
    }
    match &tokens[pos] {
        Token::Identifier(_first) => {
            let (ws, p2) = words_at(tokens, pos);
            proof {
                assert(leading_words(toks).len() >= 1);
                lemma_suffix_skip(ts, pos as int, ws@.len() as int);
                assert(Phrase(ws)@ == leading_words(toks));
            }
            Ok((LeyLine::Text { contents: Phrase(ws) }, p2))
        },
        Token::Exclamation => parse_section_at(tokens, pos + 1),
        _ => Err(ParseError::UnexpectedCloseBracket),
    }
}

/// Parse the remainder of a section after its `!`; computes
/// `spec_parse_section` on the remaining stream.
fn parse_section_at(tokens: &Vec<Token>, pos: usize) -> (r: Result<(LeyLine, usize), ParseError>)
    requires
        pos <= tokens.len(),
    ensures
        match r {
            Ok(res) => {
                &&& pos < res.1 <= tokens.len()
                &&& spec_parse_section(tok_suffix(tokens@, pos as int)) == Ok::<
                    (LineModel, Seq<TokenModel>),
                    ErrModel,
                >((line_model(res.0), tok_suffix(tokens@, res.1 as int)))
            },
            Err(e) => spec_parse_section(tok_suffix(tokens@, pos as int)) == Err::<
                (LineModel, Seq<TokenModel>),
                ErrModel,
            >(e@),
        },
    decreases tokens@.len() - pos, 1nat,
{
    let ghost ts = tokens@;
    let ghost toks = tok_suffix(ts, pos as int);
    let (names, p1) = words_at(tokens, pos);
    proof {
        lemma_suffix_skip(ts, pos as int, names@.len() as int);
        assert(tok_suffix(ts, p1 as int) == toks.skip(leading_words(toks).len() as int));
        lemma_suffix(ts, p1 as int);
    }
    let name: Option<Phrase> = if names.len() == 0 {
        None
    } else {
        Some(Phrase(names))
    };
    if p1 >= tokens.len() {
        return Err(ParseError::EndOfFile);
    }
    let is_colon = matches!(&tokens[p1], Token::Colon);
    let is_semi = matches!(&tokens[p1], Token::SemiColon);
    if !is_colon && !is_semi {
        return Err(ParseError::ExpectedColon);
    }
    let comment = is_semi;
    let p2 = p1 + 1;
    proof {
        lemma_suffix(ts, p2 as int);
    }
    if p2 >= tokens.len() {
        return Err(ParseError::EndOfFile);
    }
    match &tokens[p2] {
        Token::Identifier(kw) => {
            let p3 = p2 + 1;
            proof {
                lemma_suffix(ts, p3 as int);
            }
            if p3 >= tokens.len() {
                return Err(ParseError::EndOfFile);
            }
            let is_open = matches!(&tokens[p3], Token::OpenBrace);
            if !is_open {
                return Err(ParseError::ExpectedOpenBrace);
            }
            let body = p3 + 1;
            proof {
                lemma_suffix(ts, body as int);
            }
            if comment {
                match parse_block_at(tokens, body) {
                    Ok(res) => {
                        let (_children, p4) = res;
                        Ok((LeyLine::Comment, p4))
                    },
                    Err(e) => Err(e),
                }
            } else {
                match SectionKind::new(kw.as_str()) {
                    Err(e) => Err(e),
                    Ok(kind) => match parse_block_at(tokens, body) {
                        Ok(res) => {
                            let (children, p4) = res;
                            Ok(
                                (
                                    LeyLine::Section {
                                        name,
                                        kind,
                                        contents: LeyLines(children),
                                    },
                                    p4,
                                ),
                            )
                        },
                        Err(e) => Err(e),
                    },
                }
            }
        },
        Token::OpenBrace => {
            let kind = if name.is_none() {
                SectionKind::Paragraph
            } else {
                SectionKind::Section
            };
            let body = p2 + 1;
            proof {
                lemma_suffix(ts, body as int);
            }
            match parse_block_at(tokens, body) {
                Ok(res) => {
                    let (children, p4) = res;
                    if comment {
                        Ok((LeyLine::Comment, p4))
                    } else {
                        Ok(
                            (
                                LeyLine::Section { name, kind, contents: LeyLines(children) },
                                p4,
                            ),
                        )
                    }
                },
                Err(e) => Err(e),
            }
        },
        _ => Err(ParseError::ExpectedOpenBrace),
    }
}

/// Parse nodes up to and including a closing brace, beginning at `pos`;
/// computes `spec_parse_block` on the remaining stream.
fn parse_block_at(tokens: &Vec<Token>, pos: usize) -> (r: Result<
    (Vec<LeyLine>, usize),
    ParseError,
>)
    requires
        pos <= tokens.len(),
    ensures
        match r {
            Ok(res) => {
                &&& pos < res.1 <= tokens.len()
                &&& spec_parse_block(tok_suffix(tokens@, pos as int)) == Ok::<
                    (Seq<LineModel>, Seq<TokenModel>),
                    ErrModel,
                >((seq_lines_model(res.0@), tok_suffix(tokens@, res.1 as int)))
            },
            Err(e) => spec_parse_block(tok_suffix(tokens@, pos as int)) == Err::<
                (Seq<LineModel>, Seq<TokenModel>),
                ErrModel,
            >(e@),
        },
    decreases tokens@.len() - pos, 2nat,
{
    let ghost ts = tokens@;
    let mut out: Vec<LeyLine> = Vec::new();
    let mut p = pos;
    loop
        invariant
            pos <= p <= tokens.len(),
            ts == tokens@,
            match spec_parse_block(tok_suffix(ts, p as int)) {
                Ok(q) => spec_parse_block(tok_suffix(ts, pos as int)) == Ok::<
                    (Seq<LineModel>, Seq<TokenModel>),
                    ErrModel,
                >((seq_lines_model(out@) + q.0, q.1)),
                Err(e) => spec_parse_block(tok_suffix(ts, pos as int)) == Err::<
                    (Seq<LineModel>, Seq<TokenModel>),
                    ErrModel,
                >(e),
            },
        decreases tokens@.len() - p, 1nat,
    {
        proof {
            lemma_suffix(ts, p as int);
        }
        if p >= tokens.len() {
            return Err(ParseError::UnclosedSection);
        }
        let is_close = matches!(&tokens[p], Token::CloseBrace);
        if is_close {
            proof {
                assert(seq_lines_model(out@) + Seq::<LineModel>::empty() =~= seq_lines_model(
                    out@,
                ));
            }
            return Ok((out, p + 1));
        }
        match parse_line_at(tokens, p) {
            Err(e) => {
                return Err(e);
            },
            Ok(res) => {
                let (line, p2) = res;
                proof {
                    lemma_seq_lines_model_push(out@, line);
                    let lm = line_model(line);
                    match spec_parse_block(tok_suffix(ts, p2 as int)) {
                        Ok(q) => {
                            assert(seq_lines_model(out@) + (seq![lm] + q.0) =~= (seq_lines_model(
                                out@,
                            ) + seq![lm]) + q.0);
                        },
                        Err(_e) => {},
                    }
                }
                out.push(line);
                p = p2;
            },
        }
    }
}

impl LeyLine {
    /// Parse one node at the cursor; on success the cursor stands just past
    /// it, on failure the cursor is unchanged.
    pub fn parse(token_stream: &mut TokenIter) -> (r: Result<LeyLine, ParseError>)
        requires
            old(token_stream).wf(),
        ensures
            final(token_stream).wf(),
            final(token_stream).tokens == old(token_stream).tokens,
            match r {
                Ok(line) => {
                    &&& old(token_stream).pos < final(token_stream).pos
                    &&& spec_parse_line(old(token_stream).remaining()) == Ok::<
                        (LineModel, Seq<TokenModel>),
                        ErrModel,
                    >((line_model(line), final(token_stream).remaining()))
                },
                Err(e) => {
                    &&& spec_parse_line(old(token_stream).remaining()) == Err::<
                        (LineModel, Seq<TokenModel>),
                        ErrModel,
                    >(e@)
                    &&& final(token_stream).pos == old(token_stream).pos
                },
            },
    {
        match parse_line_at(&token_stream.tokens, token_stream.pos) {
            Ok(res) => {
                let (line, p2) = res;
                token_stream.pos = p2;
                Ok(line)
            },
            Err(e) => Err(e),
        }
    }
}

impl LeyLines {
    /// Parse a whole source text as a sequence of top-level nodes, without
    /// absorbing metadata.
    pub fn new(source: &str) -> (r: Result<LeyLines, ParseError>)
        ensures
            match r {
                Ok(ls) => spec_parse_all(spec_tokenize(source@)) == Ok::<
                    Seq<LineModel>,
                    ErrModel,
                >(lines_model(ls)),
                Err(e) => spec_parse_all(spec_tokenize(source@)) == Err::<
                    Seq<LineModel>,
                    ErrModel,
                >(e@),
            },
    {
        let tokens = tokenize(source);
        let ghost ts = tokens@;
        proof {
            lemma_suffix(ts, 0);
            assert(tok_suffix(ts, 0) =~= token_models(ts));
        }
        let mut out: Vec<LeyLine> = Vec::new();
        let mut p: usize = 0;
        loop
            invariant
                p <= tokens.len(),
                ts == tokens@,
                token_models(ts) == spec_tokenize(source@),
                tok_suffix(ts, 0) == spec_tokenize(source@),
                match spec_parse_all(tok_suffix(ts, p as int)) {
                    Ok(q) => spec_parse_all(tok_suffix(ts, 0)) == Ok::<Seq<LineModel>, ErrModel>(
                        seq_lines_model(out@) + q,
                    ),
                    Err(e) => spec_parse_all(tok_suffix(ts, 0)) == Err::<
                        Seq<LineModel>,
                        ErrModel,
                    >(e),
                },
            decreases tokens@.len() - p,
        {
            proof {
                lemma_suffix(ts, p as int);
            }
            if p >= tokens.len() {
                proof {
                    assert(seq_lines_model(out@) + Seq::<LineModel>::empty() =~= seq_lines_model(
                        out@,
                    ));
                }
                return Ok(LeyLines(out));
            }
            match parse_line_at(&tokens, p) {
                Err(e) => {
                    return Err(e);
                },
                Ok(res) => {
                    let (line, p2) = res;
                    proof {
                        lemma_seq_lines_model_push(out@, line);
                        let lm = line_model(line);
                        match spec_parse_all(tok_suffix(ts, p2 as int)) {
                            Ok(q) => {
                                assert(seq_lines_model(out@) + (seq![lm] + q) =~= (
                                seq_lines_model(out@) + seq![lm]) + q);
                            },
                            Err(_e) => {},
                        }
                    }
                    out.push(line);
                    p = p2;
                },
            }
        }
    }
}

/// The heading-nesting budget a node needs: depth grows by one when the
/// renderer enters a named plain section, and only then.
pub open spec fn line_height(l: LineModel) -> nat
    decreases l, 0nat,
{
    match l {
        LineModel::Section { name, kind, contents } => if name is Some && kind
            == SectionKind::Section {
            1 + lines_height(contents)
        } else {
            lines_height(contents)
        },
        _ => 0,
    }
}

/// The largest heading-nesting budget among a sequence of nodes.
pub open spec fn lines_height(ls: Seq<LineModel>) -> nat
    decreases ls, 1nat,
{
    if ls.len() == 0 {
        0
    } else {
        let h0 = line_height(ls[0]);
        let hr = lines_height(ls.subrange(1, ls.len() as int));
        if h0 > hr {
            h0
        } else {
            hr
        }
    }
}

pub proof fn lemma_lines_height_index(ls: Seq<LineModel>, i: int)
    requires
        0 <= i < ls.len(),
    ensures
        line_height(ls[i]) <= lines_height(ls),
    decreases ls.len(),
{
    if i > 0 {
        lemma_lines_height_index(ls.subrange(1, ls.len() as int), i - 1);
    }
}

pub proof fn lemma_lines_height_push(ls: Seq<LineModel>, l: LineModel)
    ensures
        lines_height(ls.push(l)) <= lines_height(ls) || lines_height(ls.push(l)) <= line_height(
            l,
        ),
    decreases ls.len(),
{
    if ls.len() == 0 {
        assert(ls.push(l)[0] == l);
        assert(ls.push(l).subrange(1, ls.push(l).len() as int) =~= Seq::<LineModel>::empty());
        assert(lines_height(Seq::<LineModel>::empty()) == 0);
        assert(lines_height(ls.push(l)) <= line_height(l));
    } else {
        let tail = ls.subrange(1, ls.len() as int);
        lemma_lines_height_push(tail, l);
        assert(ls.push(l)[0] == ls[0]);
        assert(ls.push(l).subrange(1, ls.push(l).len() as int) =~= tail.push(l));
        assert(lines_height(ls.push(l)) == if line_height(ls[0]) > lines_height(tail.push(l)) {
            line_height(ls[0])
        } else {
            lines_height(tail.push(l))
        });
        assert(lines_height(ls) == if line_height(ls[0]) > lines_height(tail) {
            line_height(ls[0])
        } else {
            lines_height(tail)
        });
        lemma_lines_height_index(ls, 0);
    }
}

/// Parsing can only build trees whose heading budget is smaller than the
/// number of tokens consumed: every nesting level consumes braces of its
/// own.
pub proof fn lemma_parse_line_height(toks: Seq<TokenModel>)
    ensures
        spec_parse_line(toks) matches Ok(p) ==> line_height(p.0) + p.1.len() < toks.len(),
    decreases toks.len(), 0nat,
{
    if toks.len() > 0 {
        match toks[0] {
            TokenModel::Identifier(w) => {
                let ws = leading_words(toks);
                lemma_leading_words_len(toks);
                assert(ws.len() >= 1);
            },
            TokenModel::Exclamation => {
                lemma_parse_section_height(toks.subrange(1, toks.len() as int));
            },
            _ => {},
        }
    }
}

pub proof fn lemma_parse_section_height(toks: Seq<TokenModel>)
    ensures
        spec_parse_section(toks) matches Ok(p) ==> line_height(p.0) + p.1.len() < toks.len(),
    decreases toks.len(), 1nat,
{
    lemma_leading_words_len(toks);
    let names = leading_words(toks);
    let rest1 = toks.skip(names.len() as int);
    if rest1.len() > 0 && (rest1[0] is Colon || rest1[0] is SemiColon) {
        let rest2 = rest1.subrange(1, rest1.len() as int);
        if rest2.len() > 0 {
            match rest2[0] {
                TokenModel::Identifier(_kw) => {
                    let rest3 = rest2.subrange(1, rest2.len() as int);
                    if rest3.len() > 0 && rest3[0] is OpenBrace {
                        lemma_parse_block_height(rest3.subrange(1, rest3.len() as int));
                    }
                },
                TokenModel::OpenBrace => {
                    lemma_parse_block_height(rest2.subrange(1, rest2.len() as int));
                },
                _ => {},
            }
        }
    }
}

pub proof fn lemma_parse_block_height(toks: Seq<TokenModel>)
    ensures
        spec_parse_block(toks) matches Ok(p) ==> lines_height(p.0) + p.1.len() < toks.len(),
    decreases toks.len(), 2nat,
{
    if toks.len() > 0 && !(toks[0] is CloseBrace) {
        lemma_parse_line_height(toks);
        match spec_parse_line(toks) {
            Ok(p) => {
                if p.1.len() < toks.len() {
                    lemma_parse_block_height(p.1);
                    match spec_parse_block(p.1) {
                        Ok(q) => {
                            assert((seq![p.0] + q.0)[0] == p.0);
                            assert((seq![p.0] + q.0).subrange(
                                1,
                                (seq![p.0] + q.0).len() as int,
                            ) =~= q.0);
                        },
                        Err(_e) => {},
                    }
                }
            },
            Err(_e) => {},
        }
    }
}

/// The single text run a section's children reduce to, if they are exactly
/// one text node.
pub open spec fn single_text(ls: Seq<LineModel>) -> Option<Seq<Seq<char>>> {
    if ls.len() == 1 {
        match ls[0] {
            LineModel::Text { contents } => Some(contents),
            _ => None,
        }
    } else {
        None
    }
}

impl Phrase {
    /// The maximal run of word tokens at the cursor, if there is at least
    /// one word.
    pub fn parse(tokens: &mut TokenIter) -> (r: Option<Phrase>)
        requires
            old(tokens).wf(),
        ensures
            final(tokens).wf(),
            final(tokens).tokens == old(tokens).tokens,
            match r {
                Some(p) => {
                    &&& p@ == leading_words(old(tokens).remaining())
                    &&& p@.len() > 0
                    &&& final(tokens).pos == old(tokens).pos + p@.len()
                },
                None => {
                    &&& leading_words(old(tokens).remaining()).len() == 0
                    &&& final(tokens).pos == old(tokens).pos
                },
            },
    {
        let (ws, p2) = words_at(&tokens.tokens, tokens.pos);
        if ws.len() == 0 {
            None
        } else {
            tokens.pos = p2;
            Some(Phrase(ws))
        }
    }

    /// A phrase beginning with `word` and continuing with the word run at
    /// the cursor.
    pub fn with(word: String, tokens: &mut TokenIter) -> (r: Phrase)
        requires
            old(tokens).wf(),
        ensures
            final(tokens).wf(),
            final(tokens).tokens == old(tokens).tokens,
            r@ == seq![word@] + leading_words(old(tokens).remaining()),
            final(tokens).pos == old(tokens).pos + leading_words(old(tokens).remaining()).len(),
    {
        let ghost w0 = word@;
        let (ws, p2) = words_at(&tokens.tokens, tokens.pos);
        let mut v: Vec<String> = Vec::new();
        v.push(word);
        let mut rest = ws;
        v.append(&mut rest);
        tokens.pos = p2;
        proof {
            assert(v.deep_view() =~= seq![w0] + leading_words(old(tokens).remaining()));
        }
        Phrase(v)
    }

    /// The contents of a section expected to hold exactly one text run;
    /// any other shape is the expected-a-string error.
    pub fn from_lines(ley_lines: LeyLines) -> (r: Result<Phrase, ParseError>)
        ensures
            match single_text(lines_model(ley_lines)) {
                Some(ws) => r matches Ok(p) && p@ == ws,
                None => r matches Err(e) && e@ == ErrModel::ExpectedString,
            },
    {
        proof {
            lemma_seq_lines_model_index(ley_lines.0@);
        }
        let LeyLines(mut v) = ley_lines;
        if v.len() == 1 {
            match v.pop() {
                Some(l) => match l {
                    LeyLine::Text { contents } => Ok(contents),
                    _ => Err(ParseError::ExpectedString),
                },
                None => Err(ParseError::ExpectedString),
            }
        } else {
            Err(ParseError::ExpectedString)
        }
    }
}

} // verus!
