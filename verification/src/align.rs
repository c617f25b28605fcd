//! The token aligner: reconciles the tokenizer's segmentation of an
//! utterance with the utterance's own word tokens, marking each word whose
//! end coincides with the end of a linguistic segment.
//!
//! The reconciliation is a two-pointer greedy merge on character counts: an
//! accumulator per side grows until the counts agree, at which point the
//! word that closed the run is flagged and both accumulators restart. When
//! one side runs out, the remaining words keep their flag false.
use vstd::prelude::*;

use crate::subtitle::{word_texts, Word};
use crate::text::push_all;

verus! {

/// One round of the greedy merge: pull the next segment and the next word
/// and reconcile their character counts.
pub open spec fn align_outer(
    segs: Seq<Seq<char>>,
    words: Seq<Seq<char>>,
    si: int,
    wi: int,
    flags: Seq<bool>,
) -> Seq<bool>
    decreases segs.len() - si + words.len() - wi, 0int,
{
    if si < 0 || wi < 0 || si >= segs.len() || wi >= words.len() {
        flags
    } else {
        align_inner(
            segs,
            words,
            si + 1,
            wi + 1,
            segs[si].len() as int,
            words[wi].len() as int,
            flags,
        )
    }
}

/// The inner reconciliation: grow whichever accumulator is behind until the
/// character counts agree, and flag the word that closed the run. `vlen` and
/// `wlen` are the accumulated segment and word character counts; `si` and
/// `wi` point past the last segment and word pulled.
pub open spec fn align_inner(
    segs: Seq<Seq<char>>,
    words: Seq<Seq<char>>,
    si: int,
    wi: int,
    vlen: int,
    wlen: int,
    flags: Seq<bool>,
) -> Seq<bool>
    decreases segs.len() - si + words.len() - wi, 1int,
{
    if si < 0 || wi < 1 || si > segs.len() || wi > words.len() {
        flags
    } else if vlen == wlen {
        align_outer(segs, words, si, wi, flags.update(wi - 1, true))
    } else if vlen > wlen {
        if wi < words.len() {
            align_inner(segs, words, si, wi + 1, vlen, wlen + words[wi].len(), flags)
        } else {
            flags
        }
    } else {
        if si < segs.len() {
            align_inner(segs, words, si + 1, wi, vlen + segs[si].len(), wlen, flags)
        } else {
            flags
        }
    }
}

/// The alignment flags for an utterance: one boolean per word, true exactly
/// where the greedy merge finds that the word's end closes a linguistic
/// segment.
pub open spec fn align_flags(segs: Seq<Seq<char>>, words: Seq<Seq<char>>) -> Seq<bool> {
    align_outer(segs, words, 0, 0, Seq::new(words.len(), |i: int| false))
}

/// Marks, for each word of the utterance, whether a boundary of the
/// tokenizer's segmentation falls exactly at that word's end.
pub fn match_segments(tokens: &Vec<Vec<char>>, words: &Vec<Word>) -> (flags: Vec<bool>)
    ensures
        flags@ == align_flags(tokens.deep_view(), word_texts(words.deep_view())),
        flags@.len() == words@.len(),
{
    let ghost segs = tokens.deep_view();
    let ghost wtexts = word_texts(words.deep_view());
    let m = tokens.len();
    let n = words.len();
    proof {
        assert(segs.len() == m);
        assert(wtexts.len() == n);
    }
    let mut flags: Vec<bool> = vec![false; n];
    proof {
        assert(flags@ =~= Seq::new(n as nat, |i: int| false));
    }
    let mut si: usize = 0;
    let mut wi: usize = 0;
    while si < m && wi < n
        invariant
            si <= m,
            wi <= n,
            m == segs.len(),
            n == wtexts.len(),
            flags@.len() == n,
            tokens.deep_view() == segs,
            word_texts(words.deep_view()) == wtexts,
            words@.len() == n,
            tokens@.len() == m,
            align_outer(segs, wtexts, si as int, wi as int, flags@) == align_flags(segs, wtexts),
        decreases m - si + n - wi,
    {
        let ghost si0 = si;
        let ghost wi0 = wi;
        let mut v_acc: Vec<char> = Vec::new();
        push_all(&mut v_acc, &tokens[si]);
        si += 1;
        let mut w_acc: Vec<char> = Vec::new();
        push_all(&mut w_acc, &words[wi].text);
        wi += 1;
        proof {
            assert(segs[si - 1] == tokens@[si - 1].deep_view());
            assert(wtexts[wi - 1] == words@[wi - 1]@.text);
        }
        loop
            invariant_except_break
                1 <= wi <= n,
                si <= m,
                si0 < si,
                wi0 < wi,
                m == segs.len(),
                n == wtexts.len(),
                flags@.len() == n,
                tokens.deep_view() == segs,
                word_texts(words.deep_view()) == wtexts,
                words@.len() == n,
                tokens@.len() == m,
                align_inner(
                    segs,
                    wtexts,
                    si as int,
                    wi as int,
                    v_acc@.len() as int,
                    w_acc@.len() as int,
                    flags@,
                ) == align_flags(segs, wtexts),
            ensures
                si <= m,
                wi <= n,
                si0 < si,
                wi0 < wi,
                flags@.len() == n,
                align_outer(segs, wtexts, si as int, wi as int, flags@) == align_flags(
                    segs,
                    wtexts,
                ),
            decreases m - si + n - wi,
        {
            if v_acc.len() == w_acc.len() {
                flags.set(wi - 1, true);
                break ;
            } else if v_acc.len() > w_acc.len() {
                if wi < n {
                    push_all(&mut w_acc, &words[wi].text);
                    proof {
                        assert(wtexts[wi as int] == words@[wi as int]@.text);
                    }
                    wi += 1;
                } else {
                    return flags;
                }
            } else {
                if si < m {
                    push_all(&mut v_acc, &tokens[si]);
                    proof {
                        assert(segs[si as int] == tokens@[si as int].deep_view());
                    }
                    si += 1;
                } else {
                    return flags;
                }
            }
        }
    }
    flags
}

} // verus!
