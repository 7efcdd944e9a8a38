//! The renderer: walks a document tree and produces HTML text.
//!
//! `render_document` is the model: a fixed page skeleton with four
//! substitution points (title, author, date, stylesheet name, each with a
//! documented fallback) around the rendered body.  The body walk is
//! depth-aware: entering a named plain section raises the heading level by
//! one; paragraphs, links, code and images do not change depth.  Nothing
//! is escaped: the dialect assumes trusted input, and text is emitted
//! verbatim.

use vstd::prelude::*;
use vstd::string::StringExecFns;

use crate::phrase::join_words;
use crate::tree::{
    LeyLine, LineModel, SectionKind, seq_lines_model, lines_model, lines_height, line_height,
    lemma_seq_lines_model_index, lemma_lines_height_index,
};
use crate::doc::{Ley, DocModel, meta_or};

verus! {

/// The digit character of one decimal digit.
pub open spec fn digit_seq(d: nat) -> Seq<char> {
    if d == 0 {
        "0"@
    } else if d == 1 {
        "1"@
    } else if d == 2 {
        "2"@
    } else if d == 3 {
        "3"@
    } else if d == 4 {
        "4"@
    } else if d == 5 {
        "5"@
    } else if d == 6 {
        "6"@
    } else if d == 7 {
        "7"@
    } else if d == 8 {
        "8"@
    } else {
        "9"@
    }
}

/// The decimal digit string of a number, most significant digit first.
pub open spec fn dec_digits(n: nat) -> Seq<char>
    decreases n,
{
    if n < 10 {
        digit_seq(n)
    } else {
        dec_digits(n / 10) + digit_seq(n % 10)
    }
}

fn digit_str(d: usize) -> (r: &'static str)
    requires
        d < 10,
    ensures
        r@ == digit_seq(d as nat),
{
    if d == 0 {
        "0"
    } else if d == 1 {
        "1"
    } else if d == 2 {
        "2"
    } else if d == 3 {
        "3"
    } else if d == 4 {
        "4"
    } else if d == 5 {
        "5"
    } else if d == 6 {
        "6"
    } else if d == 7 {
        "7"
    } else if d == 8 {
        "8"
    } else {
        "9"
    }
}

/// The decimal digit string of a number.
fn dec_string(n: usize) -> (r: String)
    ensures
        r@ == dec_digits(n as nat),
    decreases n,
{
    if n < 10 {
        digit_str(n).to_owned()
    } else {
        let mut s = dec_string(n / 10);
        s.append(digit_str(n % 10));
        s
    }
}

/// The HTML text of one node at a heading depth.
pub open spec fn render_line(l: LineModel, depth: nat) -> Seq<char>
    decreases l, 0nat,
{
    match l {
        LineModel::Section { name: Some(nm), kind: SectionKind::Section, contents } => "<h"@
            + dec_digits(depth) + " id=\""@ + join_words(nm) + "\">"@ + join_words(nm) + "</h"@
            + dec_digits(depth) + ">"@ + "<div class=\"depth_"@ + dec_digits(depth) + "\">"@
            + render_lines(contents, depth + 1) + "</div>"@,
        LineModel::Section { name: None, kind: SectionKind::Section, contents } => "<p>"@
            + render_lines(contents, depth) + "</p>"@,
        LineModel::Section { name: _, kind: SectionKind::Paragraph, contents } => "<p>"@
            + render_lines(contents, depth) + "</p>"@,
        LineModel::Text { contents } => join_words(contents) + " "@,
        LineModel::Section { name: Some(nm), kind: SectionKind::Link, contents } => "<a href=\""@
            + join_words(nm) + "\">"@ + render_lines(contents, depth) + "</a>"@,
        LineModel::Section { name: None, kind: SectionKind::Link, contents } => "<a>"@
            + render_lines(contents, depth) + "</a>"@,
        LineModel::Section { name: _, kind: SectionKind::Code, contents } => "<code>"@
            + render_lines(contents, depth) + "</code>"@,
        LineModel::Section { name: Some(nm), kind: SectionKind::Image, contents: _ } => "<img src=\""@
            + join_words(nm) + "\">"@,
        LineModel::Section { name: None, kind: SectionKind::Image, contents: _ } => Seq::empty(),
        LineModel::Section { name: _, kind: SectionKind::Metadata, contents: _ } => Seq::empty(),
        LineModel::Comment => Seq::empty(),
    }
}

/// The HTML text of a sequence of nodes at a heading depth.
pub open spec fn render_lines(ls: Seq<LineModel>, depth: nat) -> Seq<char>
    decreases ls, 1nat,
{
    if ls.len() == 0 {
        Seq::empty()
    } else {
        render_line(ls[0], depth) + render_lines(ls.subrange(1, ls.len() as int), depth)
    }
}

/// The whole page: the fixed skeleton with the four substitution points
/// (falling back to "Untitled Page", "No Author", "Unknown Date" and
/// "main.css") around the body rendered at depth one.
pub open spec fn render_document(doc: DocModel) -> Seq<char> {
    "<html><head><title>"@ + meta_or(doc.title, "Untitled Page"@)
        + "</title><link rel=\"stylesheet\" href=\""@ + meta_or(doc.style, "main.css"@)
        + "\"></head><body><h1>"@ + meta_or(doc.title, "Untitled Page"@) + "</h1><div>"@ + meta_or(
        doc.author,
        "No Author"@,
    ) + ", "@ + meta_or(doc.date, "Unknown Date"@) + "</div>"@ + render_lines(doc.lines, 1)
        + "</body></html>"@
}

/// Whether every node of a sequence is a text run.
pub open spec fn all_text(ls: Seq<LineModel>) -> bool {
    forall|i: int| 0 <= i < ls.len() ==> ls[i] is Text
}

/// The joined contents of a sequence of text runs, each followed by one
/// separating space.
pub open spec fn texts_concat(ls: Seq<LineModel>) -> Seq<char>
    decreases ls.len(),
{
    if ls.len() == 0 {
        Seq::empty()
    } else {
        (match ls[0] {
            LineModel::Text { contents } => join_words(contents) + " "@,
            _ => Seq::empty(),
        }) + texts_concat(ls.subrange(1, ls.len() as int))
    }
}

/// Text round trip: rendering a tree of only text runs yields exactly
/// their space-joined contents, each followed by one space, independent
/// of the depth; the page skeleton around the body is fixed, so the whole
/// page of such a document is pinned byte for byte.
pub proof fn lemma_render_text_only(ls: Seq<LineModel>, depth: nat)
    requires
        all_text(ls),
    ensures
        render_lines(ls, depth) == texts_concat(ls),
    decreases ls.len(),
{
    if ls.len() == 0 {
        assert(render_lines(ls, depth) == Seq::<char>::empty());
        assert(texts_concat(ls) == Seq::<char>::empty());
    } else {
        assert(ls[0] is Text);
        assert(all_text(ls.subrange(1, ls.len() as int)));
        lemma_render_text_only(ls.subrange(1, ls.len() as int), depth);
        assert(render_lines(ls, depth) == render_line(ls[0], depth) + render_lines(
            ls.subrange(1, ls.len() as int),
            depth,
        ));
        match ls[0] {
            LineModel::Text { contents } => {
                assert(render_line(ls[0], depth) == join_words(contents) + " "@);
            },
            _ => {},
        }
    }
}

/// A nested chain of named plain sections: each holds exactly the next as
/// its only child, and the innermost is empty.
pub open spec fn section_chain(names: Seq<Seq<Seq<char>>>) -> LineModel
    recommends
        names.len() >= 1,
    decreases names.len(),
{
    if names.len() <= 1 {
        LineModel::Section {
            name: Some(names[0]),
            kind: SectionKind::Section,
            contents: Seq::empty(),
        }
    } else {
        LineModel::Section {
            name: Some(names[0]),
            kind: SectionKind::Section,
            contents: seq![section_chain(names.subrange(1, names.len() as int))],
        }
    }
}

/// The markup a section chain must render to: one heading and one
/// container per level, the heading level rising by exactly one each
/// time.
pub open spec fn chain_html(names: Seq<Seq<Seq<char>>>, depth: nat) -> Seq<char>
    decreases names.len(),
{
    if names.len() == 0 {
        Seq::empty()
    } else {
        "<h"@ + dec_digits(depth) + " id=\""@ + join_words(names[0]) + "\">"@ + join_words(
            names[0],
        ) + "</h"@ + dec_digits(depth) + ">"@ + "<div class=\"depth_"@ + dec_digits(depth) + "\">"@
            + chain_html(names.subrange(1, names.len() as int), depth + 1) + "</div>"@
    }
}

/// Depth invariant: a chain of N nested named plain sections rendered at
/// depth d emits heading levels d, d+1, ..., d+N-1 in encounter order,
/// rising by exactly one per nesting level, never skipping or resetting.
/// A document body renders at depth 1, so a top-level chain emits 1..N.
pub proof fn lemma_depth_chain(names: Seq<Seq<Seq<char>>>, depth: nat)
    requires
        names.len() >= 1,
    ensures
        render_line(section_chain(names), depth) == chain_html(names, depth),
    decreases names.len(),
{
    if names.len() == 1 {
        assert(names.subrange(1, 1) =~= Seq::<Seq<Seq<char>>>::empty());
        assert(chain_html(names.subrange(1, 1), depth + 1) == Seq::<char>::empty());
        assert(render_lines(Seq::<LineModel>::empty(), depth + 1) == Seq::<char>::empty());
        assert(render_line(section_chain(names), depth) =~= chain_html(names, depth));
    } else {
        let tail = names.subrange(1, names.len() as int);
        lemma_depth_chain(tail, depth + 1);
        let sub = section_chain(tail);
        assert(seq![sub].subrange(1, 1) =~= Seq::<LineModel>::empty());
        assert(render_lines(Seq::<LineModel>::empty(), depth + 1) == Seq::<char>::empty());
        assert(render_lines(seq![sub], depth + 1) =~= render_line(sub, depth + 1));
        assert(render_line(section_chain(names), depth) =~= chain_html(names, depth));
    }
}

/// Append the HTML text of a vector of nodes to `out`.
#[verifier::loop_isolation(false)]
#[verifier::rlimit(100)]
fn render_lines_exec(lines: &Vec<LeyLine>, depth: usize, out: &mut String)
    requires
        depth + lines_height(seq_lines_model(lines@)) <= usize::MAX,
    ensures
        final(out)@ == old(out)@ + render_lines(seq_lines_model(lines@), depth as nat),
    decreases lines@,
{
    let ghost model = seq_lines_model(lines@);
    proof {
        lemma_seq_lines_model_index(lines@);
        assert(model.skip(0) =~= model);
    }
    let mut i: usize = 0;
    while i < lines.len()
        invariant
            i <= lines.len(),
            out@ + render_lines(model.skip(i as int), depth as nat) == old(out)@ + render_lines(
                model,
                depth as nat,
            ),
        decreases lines@.len() - i,
    {
        let ghost o0 = out@;
        let ghost lm = model[i as int];
        proof {
            lemma_lines_height_index(model, i as int);
            assert(model.skip(i as int)[0] == lm);
            assert(model.skip(i as int).subrange(1, model.skip(i as int).len() as int)
                =~= model.skip(i + 1));
        }
        match &lines[i] {
            LeyLine::Section { name, kind: SectionKind::Metadata, contents } => {
                // metadata sections produce no output
            },
            LeyLine::Comment => {
                // comments produce no output
            },
            LeyLine::Section { name: Some(nm), kind: SectionKind::Section, contents } => {
                let d = dec_string(depth);
                let t = nm.text();
                out.append("<h");
                out.append(d.as_str());
                out.append(" id=\"");
                out.append(t.as_str());
                out.append("\">");
                out.append(t.as_str());
                out.append("</h");
                out.append(d.as_str());
                out.append(">");
                out.append("<div class=\"depth_");
                out.append(d.as_str());
                out.append("\">");
                proof {
                    let le = lines@[i as int];
                    assert(decreases_to!(lines@ => le));
                    match le {
                        LeyLine::Section { name: n2, kind: k2, contents: c2 } => {
                            assert(decreases_to!(le => c2));
                            assert(decreases_to!(c2 => c2.0@));
                        },
                        _ => {},
                    }
                    assert(line_height(lm) == 1 + lines_height(seq_lines_model(contents.0@)));
                }
                render_lines_exec(&contents.0, depth + 1, out);
                out.append("</div>");
                proof {
                    assert(out@ =~= o0 + render_line(lm, depth as nat));
                }
            },
            LeyLine::Section { name: None, kind: SectionKind::Section, contents } => {
                out.append("<p>");
                render_lines_exec(&contents.0, depth, out);
                out.append("</p>");
                proof {
                    assert(out@ =~= o0 + render_line(lm, depth as nat));
                }
            },
            LeyLine::Section { name, kind: SectionKind::Paragraph, contents } => {
                out.append("<p>");
                render_lines_exec(&contents.0, depth, out);
                out.append("</p>");
                proof {
                    assert(out@ =~= o0 + render_line(lm, depth as nat));
                }
            },
            LeyLine::Text { contents } => {
                let t = contents.text();
                out.append(t.as_str());
                out.append(" ");
                proof {
                    assert(out@ =~= o0 + render_line(lm, depth as nat));
                }
            },
            LeyLine::Section { name: Some(nm), kind: SectionKind::Link, contents } => {
                let t = nm.text();
                out.append("<a href=\"");
                out.append(t.as_str());
                out.append("\">");
                render_lines_exec(&contents.0, depth, out);
                out.append("</a>");
                proof {
                    assert(out@ =~= o0 + render_line(lm, depth as nat));
                }
            },
            LeyLine::Section { name: None, kind: SectionKind::Link, contents } => {
                out.append("<a>");
                render_lines_exec(&contents.0, depth, out);
                out.append("</a>");
                proof {
                    assert(out@ =~= o0 + render_line(lm, depth as nat));
                }
            },
            LeyLine::Section { name, kind: SectionKind::Code, contents } => {
                out.append("<code>");
                render_lines_exec(&contents.0, depth, out);
                out.append("</code>");
                proof {
                    assert(out@ =~= o0 + render_line(lm, depth as nat));
                }
            },
            LeyLine::Section { name: Some(nm), kind: SectionKind::Image, contents } => {
                let t = nm.text();
                out.append("<img src=\"");
                out.append(t.as_str());
                out.append("\">");
                proof {
                    assert(out@ =~= o0 + render_line(lm, depth as nat));
                }
            },
            LeyLine::Section { name: None, kind: SectionKind::Image, contents } => {
                // a bare image produces no output
            },
        }
        proof {
            assert(out@ == o0 + render_line(lm, depth as nat));
            assert(out@ + render_lines(model.skip(i + 1), depth as nat) =~= o0 + render_lines(
                model.skip(i as int),
                depth as nat,
            ));
        }
        i = i + 1;
    }
    proof {
        assert(model.skip(i as int).len() == 0);
        assert(render_lines(model.skip(i as int), depth as nat) =~= Seq::<char>::empty());
        assert(out@ =~= out@ + Seq::<char>::empty());
    }
}

/// A document together with its HTML rendering.
#[derive(Debug)]
pub struct Html(pub Ley);

impl Html {
    /// The HTML page of the document: the fixed skeleton around the body
    /// rendered at depth one.
    pub fn render(&self) -> (r: String)
        requires
            self.0.wf(),
        ensures
            r@ == render_document(self.0@),
    {
        let mut out = String::new();
        out.append("<html><head><title>");
        let t = self.0.title.value_or("Untitled Page");
        out.append(t.as_str());
        out.append("</title><link rel=\"stylesheet\" href=\"");
        let st = self.0.style.value_or("main.css");
        out.append(st.as_str());
        out.append("\"></head><body><h1>");
        out.append(t.as_str());
        out.append("</h1><div>");
        let a = self.0.author.value_or("No Author");
        out.append(a.as_str());
        out.append(", ");
        let dt = self.0.date.value_or("Unknown Date");
        out.append(dt.as_str());
        out.append("</div>");
        render_lines_exec(&self.0.lines.0, 1, &mut out);
        out.append("</body></html>");
        proof {
            assert(out@ =~= render_document(self.0@));
        }
        out
    }
}

} // verus!
