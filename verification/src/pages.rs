//! The page registry: builds one synthetic index document out of a list
//! of already-rendered pages.
//!
//! The index is a document titled "Index" whose body is one heading-less
//! section holding, for each page, a paragraph wrapping a link to the
//! page's location whose single child is the page's display title.  The
//! registry only constructs a tree; rendering it is the renderer's work.

use vstd::prelude::*;
use vstd::string::StringExecFns;

use crate::phrase::Phrase;
use crate::tree::{
    LeyLine, LeyLines, LineModel, SectionKind, seq_lines_model, lines_model, lines_height,
    line_height, lemma_seq_lines_model_push, lemma_lines_height_push,
};
use crate::doc::{Ley, Metadata, DocModel};

verus! {

/// One already-rendered page: where it was written, and its display title.
#[derive(Debug, Clone, PartialEq, Eq)]
pub struct Page {
    pub location: String,
    pub title: String,
}

impl View for Page {
    type V = (Seq<char>, Seq<char>);

    open spec fn view(&self) -> (Seq<char>, Seq<char>) {
        (self.location@, self.title@)
    }
}

/// The models of a sequence of pages.
pub open spec fn pages_model(ps: Seq<Page>) -> Seq<(Seq<char>, Seq<char>)> {
    ps.map_values(|p: Page| p@)
}

/// The index entry of one page: a paragraph wrapping a link to the page's
/// location whose single child is the page's title.
pub open spec fn page_entry(p: (Seq<char>, Seq<char>)) -> LineModel {
    LineModel::Section {
        name: None,
        kind: SectionKind::Paragraph,
        contents: seq![
            LineModel::Section {
                name: Some(seq![p.0]),
                kind: SectionKind::Link,
                contents: seq![LineModel::Text { contents: seq![p.1] }],
            },
        ],
    }
}

/// The synthetic index document of a list of pages.
pub open spec fn index_model(ps: Seq<(Seq<char>, Seq<char>)>) -> DocModel {
    DocModel {
        lines: seq![
            LineModel::Section {
                name: None,
                kind: SectionKind::Section,
                contents: ps.map_values(|p: (Seq<char>, Seq<char>)| page_entry(p)),
            },
        ],
        title: Some("Index"@),
        author: None,
        date: None,
        style: None,
    }
}

/// Build the index entry of one page.
fn page_entry_exec(location: &String, title: &String) -> (r: LeyLine)
    ensures
        crate::tree::line_model(r) == page_entry((location@, title@)),
        line_height(crate::tree::line_model(r)) == 0,
{
    let tx = LeyLine::Text { contents: Phrase::new(title.as_str()) };
    let ghost txg = tx;
    let mut text_v: Vec<LeyLine> = Vec::new();
    text_v.push(tx);
    let ghost tv = text_v@;
    let lk = LeyLine::Section {
        name: Some(Phrase::new(location.as_str())),
        kind: SectionKind::Link,
        contents: LeyLines(text_v),
    };
    let ghost lkg = lk;
    let mut link_v: Vec<LeyLine> = Vec::new();
    link_v.push(lk);
    let ghost lv = link_v@;
    let r = LeyLine::Section {
        name: None,
        kind: SectionKind::Paragraph,
        contents: LeyLines(link_v),
    };
    proof {
        assert(seq_lines_model(Seq::<LeyLine>::empty()) =~= Seq::<LineModel>::empty());
        assert(lines_height(Seq::<LineModel>::empty()) == 0);
        assert(tv =~= seq![txg]);
        assert(tv.len() == 1);
        assert(tv[0] == txg);
        assert(tv.subrange(1, 1) =~= Seq::<LeyLine>::empty());
        assert(crate::tree::line_model(txg) == LineModel::Text { contents: seq![title@] });
        assert(seq_lines_model(tv) =~= seq![
            LineModel::Text { contents: seq![title@] },
        ]);
        assert(seq_lines_model(tv).subrange(1, 1) =~= Seq::<LineModel>::empty());
        assert(line_height(seq_lines_model(tv)[0]) == 0);
        assert(lines_height(seq_lines_model(tv)) == 0);
        assert(lv =~= seq![lkg]);
        assert(lv[0] == lkg);
        assert(lv.subrange(1, 1) =~= Seq::<LeyLine>::empty());
        assert(crate::tree::line_model(lkg) == (LineModel::Section {
            name: Some(seq![location@]),
            kind: SectionKind::Link,
            contents: seq_lines_model(tv),
        }));
        assert(seq_lines_model(lv) =~= seq![
            LineModel::Section {
                name: Some(seq![location@]),
                kind: SectionKind::Link,
                contents: seq_lines_model(tv),
            },
        ]);
        assert(seq_lines_model(lv).subrange(1, 1) =~= Seq::<LineModel>::empty());
        assert(line_height(seq_lines_model(lv)[0]) == 0);
        assert(lines_height(seq_lines_model(lv)) == 0);
        assert(crate::tree::line_model(r) =~= page_entry((location@, title@)));
        assert(line_height(crate::tree::line_model(r)) == 0);
    }
    r
}

impl Ley {
    /// The synthetic index document of a list of pages: title "Index", a
    /// heading-less body section with one entry per page.
    pub fn index(pages: &Vec<Page>) -> (r: Ley)
        ensures
            r@ == index_model(pages_model(pages@)),
            r.wf(),
    {
        let ghost target = pages_model(pages@).map_values(
            |p: (Seq<char>, Seq<char>)| page_entry(p),
        );
        let mut entries: Vec<LeyLine> = Vec::new();
        let mut i: usize = 0;
        proof {
            assert(seq_lines_model(entries@) =~= target.take(0));
        }
        while i < pages.len()
            invariant
                i <= pages.len(),
                target == pages_model(pages@).map_values(
                    |p: (Seq<char>, Seq<char>)| page_entry(p),
                ),
                seq_lines_model(entries@) == target.take(i as int),
                lines_height(seq_lines_model(entries@)) == 0,
            decreases pages@.len() - i,
        {
            let entry = page_entry_exec(&pages[i].location, &pages[i].title);
            proof {
                lemma_seq_lines_model_push(entries@, entry);
                lemma_lines_height_push(
                    seq_lines_model(entries@),
                    crate::tree::line_model(entry),
                );
                assert(seq_lines_model(entries@) + seq![crate::tree::line_model(entry)]
                    =~= seq_lines_model(entries@).push(crate::tree::line_model(entry)));
                assert(target[i as int] == crate::tree::line_model(entry));
                assert(seq_lines_model(entries@).push(crate::tree::line_model(entry))
                    =~= target.take(i + 1));
            }
            entries.push(entry);
            i = i + 1;
        }
        proof {
            assert(target.take(i as int) =~= target);
        }
        let mut top: Vec<LeyLine> = Vec::new();
        let ghost em = seq_lines_model(entries@);
        let tops = LeyLine::Section {
            name: None,
            kind: SectionKind::Section,
            contents: LeyLines(entries),
        };
        let ghost topsg = tops;
        top.push(tops);
        let r = Ley {
            lines: LeyLines(top),
            title: Metadata(Some(String::from_str("Index"))),
            author: Metadata(None),
            date: Metadata(None),
            style: Metadata(None),
        };
        proof {
            let top_m = LineModel::Section { name: None, kind: SectionKind::Section, contents: em };
            assert(seq_lines_model(Seq::<LeyLine>::empty()) =~= Seq::<LineModel>::empty());
            assert(lines_height(Seq::<LineModel>::empty()) == 0);
            assert(r.lines.0@.len() == 1);
            assert(r.lines.0@.subrange(1, 1) =~= Seq::<LeyLine>::empty());
            assert(r.lines.0@[0] == topsg);
            assert(crate::tree::line_model(topsg) == top_m);
            assert(seq_lines_model(r.lines.0@) =~= seq![top_m]);
            assert(seq_lines_model(r.lines.0@).subrange(1, 1) =~= Seq::<LineModel>::empty());
            assert(line_height(top_m) == 0);
            assert(lines_height(seq_lines_model(r.lines.0@)) == 0);
            assert(r@ =~= index_model(pages_model(pages@)));
        }
        r
    }
}

} // verus!
