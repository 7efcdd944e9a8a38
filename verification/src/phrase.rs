//! A phrase: an ordered sequence of words treated as one string value,
//! rendered by joining the words with single spaces.
//!
//! Phrases carry both visible text and names (section titles, link
//! targets).  The model of a phrase is the sequence of its words'
//! character sequences; `join_words` is the model of its rendered form.

use vstd::prelude::*;
use vstd::string::StringExecFns;

verus! {

/// An ordered sequence of words treated as one string value.
#[derive(Debug, Clone, PartialEq, Eq)]
pub struct Phrase(pub Vec<String>);

impl View for Phrase {
    type V = Seq<Seq<char>>;

    open spec fn view(&self) -> Seq<Seq<char>> {
        self.0.deep_view()
    }
}

/// The space-joined text of a word sequence: the words in order with one
/// space between neighbours and nothing around them.
pub open spec fn join_words(ws: Seq<Seq<char>>) -> Seq<char>
    decreases ws.len(),
{
    if ws.len() == 0 {
        Seq::empty()
    } else if ws.len() == 1 {
        ws[0]
    } else {
        ws[0] + seq![' '] + join_words(ws.drop_first())
    }
}

/// Appending one more word appends one space and that word to the joined
/// text of a non-empty word sequence.
pub proof fn lemma_join_push(ws: Seq<Seq<char>>, w: Seq<char>)
    requires
        ws.len() >= 1,
    ensures
        join_words(ws.push(w)) == join_words(ws) + seq![' '] + w,
    decreases ws.len(),
{
    if ws.len() == 1 {
        assert(ws.push(w).len() == 2);
        assert(ws.push(w)[0] == ws[0]);
        assert(ws.push(w).drop_first() =~= seq![w]);
        assert(join_words(seq![w]) == w);
        assert(join_words(ws.push(w)) =~= ws[0] + seq![' '] + w);
    } else {
        lemma_join_push(ws.drop_first(), w);
        assert(ws.push(w)[0] == ws[0]);
        assert(ws.push(w).drop_first() =~= ws.drop_first().push(w));
        assert(join_words(ws.push(w)) =~= join_words(ws) + seq![' '] + w);
    }
}

/// Whether the first word of a phrase model is the given word; phrases used
/// as metadata keys are dispatched on their first word alone.
pub open spec fn phrase_first_is(ws: Seq<Seq<char>>, w: Seq<char>) -> bool {
    ws.len() > 0 && ws[0] == w
}

impl Phrase {
    /// A phrase of one word.
    pub fn new(word: &str) -> (r: Phrase)
        ensures
            r@ == seq![word@],
    {
        let mut v: Vec<String> = Vec::new();
        v.push(word.to_owned());
        proof {
            assert(Phrase(v)@ =~= seq![word@]);
        }
        Phrase(v)
    }

    /// The number of words.
    pub fn len(&self) -> (r: usize)
        ensures
            r == self@.len(),
    {
        self.0.len()
    }

    /// The space-joined text of the phrase.
    pub fn text(&self) -> (r: String)
        ensures
            r@ == join_words(self@),
    {
        let mut out = String::new();
        if self.0.len() > 0 {
            out.append(self.0[0].as_str());
            proof {
                assert(self@.subrange(0, 1) =~= seq![self@[0]]);
                assert(out@ =~= join_words(self@.subrange(0, 1)));
            }
            let mut i: usize = 1;
            while i < self.0.len()
                invariant
                    1 <= i <= self@.len(),
                    self@.len() == self.0.len(),
                    out@ == join_words(self@.subrange(0, i as int)),
                decreases self@.len() - i,
            {
                out.append(" ");
                out.append(self.0[i].as_str());
                proof {
                    reveal_strlit(" ");
                    assert(" "@ =~= seq![' ']);
                    assert(self@[i as int] == self.0@[i as int]@);
                    lemma_join_push(self@.subrange(0, i as int), self@[i as int]);
                    assert(self@.subrange(0, i + 1) =~= self@.subrange(0, i as int).push(
                        self@[i as int],
                    ));
                    assert(out@ =~= join_words(self@.subrange(0, i + 1)));
                }
                i = i + 1;
            }
            proof {
                assert(self@.subrange(0, self@.len() as int) =~= self@);
            }
        } else {
            proof {
                assert(out@ =~= join_words(self@));
            }
        }
        out
    }

    /// Whether the first word of the phrase is `other`.
    pub fn first_word_is(&self, other: &str) -> (r: bool)
        ensures
            r == phrase_first_is(self@, other@),
    {
        if self.0.len() > 0 {
            let o = other.to_owned();
            let eq = self.0[0] == o;
            proof {
                assert(self@[0] == self.0@[0]@);
            }
            eq
        } else {
            false
        }
    }
}

} // verus!
