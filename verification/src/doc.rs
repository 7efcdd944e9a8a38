//! The document model: a parsed tree plus the four optional metadata
//! fields, with top-level metadata sections absorbed into the fields.
//!
//! `spec_document` is the model of building a whole document from source
//! text: tokenize, then repeatedly parse one top-level node, absorbing
//! metadata sections into the fields (later sections overwrite earlier
//! ones) and appending every other node to the tree.

use vstd::prelude::*;

use crate::lex::{tokenize, spec_tokenize, token_models, TokenModel};
use crate::phrase::{Phrase, join_words};
use crate::tree::{
    LeyLine, LeyLines, LineModel, ParseError, ErrModel, SectionKind, lines_model,
    seq_lines_model, single_text, spec_parse_line, spec_parse_all, line_model, lines_height,
    line_height, tok_suffix, lemma_suffix, lemma_parse_line_height, lemma_lines_height_push,
    lemma_seq_lines_model_push,
};

verus! {

/// One optional metadata field value.
#[derive(Debug, Clone, PartialEq, Eq)]
pub struct Metadata(pub Option<String>);

impl View for Metadata {
    type V = Option<Seq<char>>;

    open spec fn view(&self) -> Option<Seq<char>> {
        match self.0 {
            Some(s) => Some(s@),
            None => None,
        }
    }
}

impl Default for Metadata {
    /// An absent field.
    fn default() -> (r: Metadata)
        ensures
            r@ is None,
    {
        Metadata(None)
    }
}

/// A field value, or the given fallback when the field is absent.
pub open spec fn meta_or(m: Option<Seq<char>>, d: Seq<char>) -> Seq<char> {
    match m {
        Some(v) => v,
        None => d,
    }
}

impl Metadata {
    /// The value of a metadata section: its children must reduce to exactly
    /// one text run, whose space-joined text becomes the field value.
    pub fn from_lines(ley_lines: LeyLines) -> (r: Result<Metadata, ParseError>)
        ensures
            match single_text(lines_model(ley_lines)) {
                Some(ws) => r matches Ok(m) && m@ == Some(join_words(ws)),
                None => r matches Err(e) && e@ == ErrModel::ExpectedString,
            },
    {
        match Phrase::from_lines(ley_lines) {
            Ok(p) => {
                let t = p.text();
                Ok(Metadata(Some(t)))
            },
            Err(e) => Err(e),
        }
    }

    /// The field's text, or `fallback` when the field is absent.
    pub fn value_or(&self, fallback: &str) -> (r: String)
        ensures
            r@ == meta_or(self@, fallback@),
    {
        match &self.0 {
            Some(s) => s.clone(),
            None => fallback.to_owned(),
        }
    }

    /// Whether the field holds a value.
    pub fn is_set(&self) -> (r: bool)
        ensures
            r == (self@ is Some),
    {
        self.0.is_some()
    }
}

/// The mathematical image of a [`Ley`] document: the tree model plus the
/// four field values.
#[verifier::ext_equal]
pub struct DocModel {
    pub lines: Seq<LineModel>,
    pub title: Option<Seq<char>>,
    pub author: Option<Seq<char>>,
    pub date: Option<Seq<char>>,
    pub style: Option<Seq<char>>,
}

/// A parsed ley document: the content tree and the metadata fields.
#[derive(Debug, PartialEq, Eq)]
pub struct Ley {
    pub lines: LeyLines,
    pub title: Metadata,
    pub author: Metadata,
    pub date: Metadata,
    pub style: Metadata,
}

impl View for Ley {
    type V = DocModel;

    open spec fn view(&self) -> DocModel {
        DocModel {
            lines: lines_model(self.lines),
            title: self.title@,
            author: self.author@,
            date: self.date@,
            style: self.style@,
        }
    }
}

/// The value a metadata section supplies, or the expected-a-string error
/// when its children are not exactly one text run.
pub open spec fn meta_value(contents: Seq<LineModel>) -> Result<Seq<char>, ErrModel> {
    match single_text(contents) {
        Some(ws) => Ok(join_words(ws)),
        None => Err(ErrModel::ExpectedString),
    }
}

/// Handle one parsed top-level node: a named metadata section is absorbed
/// into the field its first name word selects (unknown first words are
/// dropped); every other node is appended to the tree.
pub open spec fn absorb(doc: DocModel, line: LineModel) -> Result<DocModel, ErrModel> {
    match line {
        LineModel::Section { name: Some(nm), kind: SectionKind::Metadata, contents } => {
            if nm.len() == 0 {
                Ok(doc)
            } else if nm[0] == "title"@ {
                match meta_value(contents) {
                    Ok(v) => Ok(DocModel { title: Some(v), ..doc }),
                    Err(e) => Err(e),
                }
            } else if nm[0] == "author"@ {
                match meta_value(contents) {
                    Ok(v) => Ok(DocModel { author: Some(v), ..doc }),
                    Err(e) => Err(e),
                }
            } else if nm[0] == "date"@ {
                match meta_value(contents) {
                    Ok(v) => Ok(DocModel { date: Some(v), ..doc }),
                    Err(e) => Err(e),
                }
            } else if nm[0] == "style"@ {
                match meta_value(contents) {
                    Ok(v) => Ok(DocModel { style: Some(v), ..doc }),
                    Err(e) => Err(e),
                }
            } else {
                Ok(doc)
            }
        },
        _ => Ok(DocModel { lines: doc.lines.push(line), ..doc }),
    }
}

/// Absorb a sequence of already-parsed top-level nodes in order.
pub open spec fn absorb_all(doc: DocModel, lines: Seq<LineModel>) -> Result<DocModel, ErrModel>
    decreases lines.len(),
{
    if lines.len() == 0 {
        Ok(doc)
    } else {
        match absorb(doc, lines[0]) {
            Err(e) => Err(e),
            Ok(d2) => absorb_all(d2, lines.subrange(1, lines.len() as int)),
        }
    }
}

/// A document with no content and only the externally supplied stylesheet
/// name set.
pub open spec fn empty_doc(style: Option<Seq<char>>) -> DocModel {
    DocModel { lines: Seq::empty(), title: None, author: None, date: None, style }
}

/// The document-building loop: parse one top-level node at a time and
/// absorb it, until the token stream is exhausted.
pub open spec fn spec_doc_loop(doc: DocModel, toks: Seq<TokenModel>) -> Result<
    DocModel,
    ErrModel,
>
    decreases toks.len(),
{
    if toks.len() == 0 {
        Ok(doc)
    } else {
        match spec_parse_line(toks) {
            Err(e) => Err(e),
            Ok(p) => match absorb(doc, p.0) {
                Err(e) => Err(e),
                Ok(d2) => if p.1.len() < toks.len() {
                    spec_doc_loop(d2, p.1)
                } else {
                    Err(ErrModel::UnclosedSection)
                },
            },
        }
    }
}

/// The model of building a whole document from a source text and an
/// externally supplied stylesheet name.
pub open spec fn spec_document(src: Seq<char>, style: Option<Seq<char>>) -> Result<
    DocModel,
    ErrModel,
> {
    spec_doc_loop(empty_doc(style), spec_tokenize(src))
}

/// Building a document is deterministic: the result is a function of the
/// source text and the external stylesheet name alone, so parsing
/// identical texts yields structurally identical documents.
pub proof fn lemma_parse_deterministic(s1: Seq<char>, s2: Seq<char>, style: Option<Seq<char>>)
    requires
        s1 == s2,
    ensures
        spec_document(s1, style) == spec_document(s2, style),
{
}

/// When parsing succeeds, the interleaved document-building loop equals
/// parsing all top-level nodes first and then absorbing them in order.
pub proof fn lemma_doc_loop_is_absorb_all(doc: DocModel, toks: Seq<TokenModel>)
    ensures
        match spec_parse_all(toks) {
            Ok(ls) => spec_doc_loop(doc, toks) == absorb_all(doc, ls),
            Err(_) => true,
        },
    decreases toks.len(),
{
    if toks.len() > 0 {
        match spec_parse_line(toks) {
            Ok(p) => {
                if p.1.len() < toks.len() {
                    match spec_parse_all(p.1) {
                        Ok(ls2) => {
                            assert((seq![p.0] + ls2)[0] == p.0);
                            assert((seq![p.0] + ls2).subrange(
                                1,
                                (seq![p.0] + ls2).len() as int,
                            ) =~= ls2);
                            match absorb(doc, p.0) {
                                Ok(d2) => {
                                    lemma_doc_loop_is_absorb_all(d2, p.1);
                                },
                                Err(_e) => {},
                            }
                        },
                        Err(_e) => {},
                    }
                }
            },
            Err(_e) => {},
        }
    }
}

/// A well-formed title metadata section supplying the value `v`: named
/// with first word "title", of metadata kind, whose children reduce to
/// one text run joining to `v`.
pub open spec fn is_title_meta(l: LineModel, v: Seq<char>) -> bool {
    match l {
        LineModel::Section { name: Some(nm), kind: SectionKind::Metadata, contents } => nm.len()
            > 0 && nm[0] == "title"@ && meta_value(contents) == Ok::<Seq<char>, ErrModel>(v),
        _ => false,
    }
}

/// Last write wins: absorbing a node sequence that ends with a
/// well-formed title metadata section always succeeds on that last
/// section and leaves exactly the title it supplies, whatever titles
/// earlier nodes set.
pub proof fn lemma_title_last_write(
    doc: DocModel,
    lines: Seq<LineModel>,
    m: LineModel,
    v: Seq<char>,
)
    requires
        is_title_meta(m, v),
        absorb_all(doc, lines) is Ok,
    ensures
        absorb_all(doc, lines.push(m)) matches Ok(d2) && d2.title == Some(v),
    decreases lines.len(),
{
    if lines.len() == 0 {
        assert(lines.push(m)[0] == m);
        assert(lines.push(m).subrange(1, 1) =~= Seq::<LineModel>::empty());
        match absorb(doc, m) {
            Ok(d2) => {
                assert(absorb_all(d2, Seq::<LineModel>::empty()) == Ok::<DocModel, ErrModel>(d2));
                assert(d2.title == Some(v));
            },
            Err(_e) => {
                assert(false);
            },
        }
    } else {
        assert(lines.push(m)[0] == lines[0]);
        assert(lines.push(m).subrange(1, lines.push(m).len() as int) =~= lines.subrange(
            1,
            lines.len() as int,
        ).push(m));
        match absorb(doc, lines[0]) {
            Ok(d2) => {
                lemma_title_last_write(d2, lines.subrange(1, lines.len() as int), m, v);
            },
            Err(_e) => {},
        }
    }
}

impl Ley {
    /// The document's heading budget fits in a machine word; documents
    /// built by [`Ley::new`] and [`Ley::index`] always satisfy this.
    pub open spec fn wf(&self) -> bool {
        1 + lines_height(lines_model(self.lines)) <= usize::MAX
    }

    /// Build a document from a source text.  `style` is the externally
    /// supplied stylesheet name, used when the document supplies none.
    pub fn new(source: &str, style: Metadata) -> (r: Result<Ley, ParseError>)
        ensures
            match r {
                Ok(ley) => spec_document(source@, style@) == Ok::<DocModel, ErrModel>(ley@)
                    && ley.wf(),
                Err(e) => spec_document(source@, style@) == Err::<DocModel, ErrModel>(e@),
            },
    {
        let tokens = tokenize(source);
        let ghost ts = tokens@;
        proof {
            assert(tok_suffix(ts, 0) =~= token_models(ts));
        }
        let mut ley = Ley {
            lines: LeyLines(Vec::new()),
            title: Metadata(None),
            author: Metadata(None),
            date: Metadata(None),
            style,
        };
        let mut pos: usize = 0;
        proof {
            assert(lines_model(ley.lines) =~= Seq::<LineModel>::empty());
            assert(ley@ =~= empty_doc(style@));
        }
        loop
            invariant
                pos <= tokens.len(),
                ts == tokens@,
                tok_suffix(ts, 0) == spec_tokenize(source@),
                spec_doc_loop(ley@, tok_suffix(ts, pos as int)) == spec_document(
                    source@,
                    style@,
                ),
                lines_height(lines_model(ley.lines)) < usize::MAX,
            decreases tokens@.len() - pos,
        {
            proof {
                lemma_suffix(ts, pos as int);
            }
            if pos >= tokens.len() {
                return Ok(ley);
            }
            let ghost doc0 = ley@;
            let ghost toks0 = tok_suffix(ts, pos as int);
            match crate::tree::parse_line_at(&tokens, pos) {
                Err(e) => {
                    return Err(e);
                },
                Ok(res) => {
                    let (line, p2) = res;
                    let ghost lm = line_model(line);
                    proof {
                        lemma_suffix(ts, p2 as int);
                        lemma_parse_line_height(toks0);
                    }
                    match line {
                        LeyLine::Section {
                            name: Some(nm),
                            kind: SectionKind::Metadata,
                            contents,
                        } => {
                            if nm.len() > 0 {
                                if nm.first_word_is("title") {
                                    match Metadata::from_lines(contents) {
                                        Ok(m) => {
                                            ley.title = m;
                                        },
                                        Err(e) => {
                                            return Err(e);
                                        },
                                    }
                                } else if nm.first_word_is("author") {
                                    match Metadata::from_lines(contents) {
                                        Ok(m) => {
                                            ley.author = m;
                                        },
                                        Err(e) => {
                                            return Err(e);
                                        },
                                    }
                                } else if nm.first_word_is("date") {
                                    match Metadata::from_lines(contents) {
                                        Ok(m) => {
                                            ley.date = m;
                                        },
                                        Err(e) => {
                                            return Err(e);
                                        },
                                    }
                                } else if nm.first_word_is("style") {
                                    match Metadata::from_lines(contents) {
                                        Ok(m) => {
                                            ley.style = m;
                                        },
                                        Err(e) => {
                                            return Err(e);
                                        },
                                    }
                                }
                                // an unrecognized first word is dropped
                            }
                            // a name with no words is dropped
                            proof {
                                assert(absorb(doc0, lm) == Ok::<DocModel, ErrModel>(ley@));
                            }
                        },
                        other => {
                            proof {
                                lemma_seq_lines_model_push(ley.lines.0@, other);
                                lemma_lines_height_push(lines_model(ley.lines), line_model(other));
                            }
                            ley.lines.0.push(other);
                            proof {
                                assert(seq_lines_model(ley.lines.0@) == doc0.lines + seq![lm]);
                                assert(doc0.lines + seq![lm] =~= doc0.lines.push(lm));
                                assert(ley@ =~= (DocModel { lines: doc0.lines.push(lm), ..doc0 }));
                                assert(absorb(doc0, lm) == Ok::<DocModel, ErrModel>(ley@));
                            }
                        },
                    }
                    pos = p2;
                },
            }
        }
    }
}

} // verus!
