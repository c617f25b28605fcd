//! The line splitter: partitions one utterance's word stream into subtitle
//! lines under competing length, duration and punctuation constraints.
//!
//! A short utterance (at most [`crate::LINE_MAX_WORD_LENGTH`] word tokens)
//! becomes a single line. A longer one is walked word by word: a line breaks
//! right after a word that carries punctuation once the line is long enough,
//! or after a word that closes a linguistic segment once the line is too
//! long or has run too long, never inside a segment and never at a purely
//! numeric token. A short trailing remainder is folded into the previous
//! line instead of standing alone.
use vstd::prelude::*;

use crate::align::{align_flags, match_segments};
use crate::subtitle::{utterance_text, word_texts, LineView, SubtitleLine, Word, WordView};
use crate::text::{
    contains_punct, is_numeric_text, push_all, text_contains_punct, text_is_numeric, trim,
    trim_text,
};
use crate::tokenizer::{segmentation_of, Tokenizer};
use crate::{LINE_MAX_DURATION_MS, LINE_MAX_WORD_LENGTH, LINE_MIN_WORD_LENGTH};

verus! {

/// Whether the walk breaks the line right after appending word `w`.
/// `acc_len` is the line's character count with `w` already appended;
/// `start` is the running line's start time; `flag` is the word's alignment
/// flag.
pub open spec fn break_after(w: WordView, flag: bool, acc_len: int, start: int) -> bool {
    (contains_punct(w.text) && acc_len >= LINE_MIN_WORD_LENGTH as int) || ((acc_len
        >= LINE_MAX_WORD_LENGTH as int || w.end_ms - start > LINE_MAX_DURATION_MS as int)
        && !is_numeric_text(w.text) && flag)
}

/// What becomes of the text still in the buffer when the walk runs out of
/// words: nothing if the buffer is empty, a merge into the last emitted line
/// if the remainder is very short, its own final line otherwise.
pub open spec fn split_finish(
    words: Seq<WordView>,
    acc: Seq<char>,
    start: int,
    out: Seq<LineView>,
) -> Seq<LineView> {
    if acc.len() == 0 {
        out
    } else {
        let end = if words.len() > 0 {
            words.last().end_ms
        } else {
            start
        };
        if acc.len() <= (LINE_MIN_WORD_LENGTH / 2) as int && out.len() > 0 {
            let prev = out.last();
            out.drop_last().push(
                LineView { text: prev.text + trim(acc), start_ms: prev.start_ms, end_ms: end },
            )
        } else {
            out.push(LineView { text: trim(acc), start_ms: start, end_ms: end })
        }
    }
}

/// The walk of the general path from word `i` on, with the line buffer
/// `acc`, the running line's start time `start`, and the lines emitted so
/// far `out`.
pub open spec fn split_walk(
    words: Seq<WordView>,
    flags: Seq<bool>,
    i: int,
    acc: Seq<char>,
    start: int,
    out: Seq<LineView>,
) -> Seq<LineView>
    decreases words.len() - i,
{
    if i < 0 || i >= words.len() {
        split_finish(words, acc, start, out)
    } else {
        let w = words[i];
        let acc2 = acc + w.text;
        if break_after(w, flags[i], acc2.len() as int, start) {
            let line = LineView { text: trim(acc2), start_ms: start, end_ms: w.end_ms };
            let start2 = if i + 1 < words.len() {
                words[i + 1].start_ms
            } else {
                start
            };
            split_walk(words, flags, i + 1, Seq::empty(), start2, out.push(line))
        } else {
            split_walk(words, flags, i + 1, acc2, start, out)
        }
    }
}

/// The lines the splitter produces for one utterance, given the alignment
/// flags: none for an empty utterance, a single line covering the whole
/// utterance when it has at most [`LINE_MAX_WORD_LENGTH`] word tokens, and
/// the general walk otherwise.
pub open spec fn split_lines(words: Seq<WordView>, flags: Seq<bool>) -> Seq<LineView> {
    if words.len() == 0 {
        Seq::empty()
    } else if words.len() <= LINE_MAX_WORD_LENGTH as int {
        seq![
            LineView {
                text: utterance_text(words),
                start_ms: words[0].start_ms,
                end_ms: words.last().end_ms,
            },
        ]
    } else {
        split_walk(words, flags, 0, Seq::empty(), words[0].start_ms, Seq::empty())
    }
}

/// The lines the splitter produces for one utterance, with the alignment
/// flags taken from the tokenizer's segmentation of the utterance's text.
pub open spec fn split_by_punctuation_spec(ws: Seq<WordView>) -> Seq<LineView> {
    split_lines(ws, align_flags(segmentation_of(utterance_text(ws)), word_texts(ws)))
}

/// The concatenated text of the utterance, as one character vector.
pub fn concat_word_texts(words: &Vec<Word>) -> (r: Vec<char>)
    ensures
        r@ == utterance_text(words.deep_view()),
{
    let ghost wv = words.deep_view();
    let mut r: Vec<char> = Vec::new();
    let mut k: usize = 0;
    while k < words.len()
        invariant
            k <= words@.len(),
            words.deep_view() == wv,
            wv.len() == words@.len(),
            r@ == word_texts(wv).subrange(0, k as int).flatten(),
        decreases words@.len() - k,
    {
        push_all(&mut r, &words[k].text);
        proof {
            let prefix = word_texts(wv).subrange(0, k as int);
            prefix.lemma_flatten_push(wv[k as int].text);
            assert(word_texts(wv).subrange(0, k + 1 as int) =~= prefix.push(wv[k as int].text));
            assert(wv[k as int].text == words@[k as int]@.text);
        }
        k += 1;
    }
    proof {
        assert(word_texts(wv).subrange(0, words@.len() as int) =~= word_texts(wv));
    }
    r
}

/// Splits one utterance into subtitle lines, the alignment flags given by
/// the caller (one per word).
pub fn split_with_flags(words: &Vec<Word>, flags: &Vec<bool>) -> (r: Vec<SubtitleLine>)
    requires
        flags@.len() == words@.len(),
    ensures
        r.deep_view() == split_lines(words.deep_view(), flags@),
{
    let ghost wv = words.deep_view();
    let n = words.len();
    if n == 0 {
        let r: Vec<SubtitleLine> = Vec::new();
        proof {
            assert(r.deep_view() =~= split_lines(wv, flags@));
        }
        return r;
    }
    if n <= LINE_MAX_WORD_LENGTH {
        let text = concat_word_texts(words);
        let line = SubtitleLine {
            text,
            start_ms: words[0].start_ms,
            end_ms: words[n - 1].end_ms,
        };
        let mut r: Vec<SubtitleLine> = Vec::new();
        r.push(line);
        proof {
            assert(r.deep_view() =~= split_lines(wv, flags@));
        }
        return r;
    }
    let ghost target = split_lines(wv, flags@);
    let mut out: Vec<SubtitleLine> = Vec::new();
    let mut acc: Vec<char> = Vec::new();
    let mut start: u64 = words[0].start_ms;
    let mut i: usize = 0;
    proof {
        assert(out.deep_view() =~= Seq::<LineView>::empty());
        assert(acc@ =~= Seq::<char>::empty());
    }
    while i < n
        invariant
            i <= n,
            n == words@.len(),
            n > LINE_MAX_WORD_LENGTH,
            flags@.len() == n,
            words.deep_view() == wv,
            wv.len() == n,
            split_walk(wv, flags@, i as int, acc@, start as int, out.deep_view()) == target,
        decreases n - i,
    {
        let ghost out0 = out.deep_view();
        let ghost acc0 = acc@;
        push_all(&mut acc, &words[i].text);
        proof {
            assert(wv[i as int] == words@[i as int]@);
            assert(acc@ == acc0 + wv[i as int].text);
        }
        let has_punct = text_contains_punct(&words[i].text);
        let is_num = text_is_numeric(&words[i].text);
        let end_ms = words[i].end_ms;
        let too_long_running = end_ms > start && end_ms - start > LINE_MAX_DURATION_MS;
        proof {
            assert(too_long_running == (wv[i as int].end_ms - start as int
                > LINE_MAX_DURATION_MS as int));
        }
        let brk = (has_punct && acc.len() >= LINE_MIN_WORD_LENGTH) || ((acc.len()
            >= LINE_MAX_WORD_LENGTH || too_long_running) && !is_num && flags[i]);
        proof {
            assert(brk == break_after(wv[i as int], flags@[i as int], acc@.len() as int,
                start as int));
        }
        if brk {
            let text = trim_text(&acc);
            out.push(SubtitleLine { text, start_ms: start, end_ms });
            acc.clear();
            proof {
                assert(out.deep_view() =~= out0.push(
                    LineView {
                        text: trim(acc0 + wv[i as int].text),
                        start_ms: start as int,
                        end_ms: wv[i as int].end_ms,
                    },
                ));
                assert(acc@ =~= Seq::<char>::empty());
            }
            if i + 1 < n {
                start = words[i + 1].start_ms;
                proof {
                    assert(wv[i + 1 as int] == words@[i + 1 as int]@);
                }
            }
        }
        i += 1;
    }
    if acc.len() != 0 {
        let last_end = words[n - 1].end_ms;
        if acc.len() <= LINE_MIN_WORD_LENGTH / 2 && out.len() > 0 {
            let ghost out0 = out.deep_view();
            let prev = out.pop().unwrap();
            let mut combined = prev.text;
            let trimmed = trim_text(&acc);
            push_all(&mut combined, &trimmed);
            let ghost prev_start = prev.start_ms as int;
            out.push(SubtitleLine { text: combined, start_ms: prev.start_ms, end_ms: last_end });
            proof {
                assert(out.deep_view() =~= out0.drop_last().push(
                    LineView {
                        text: out0.last().text + trim(acc@),
                        start_ms: out0.last().start_ms,
                        end_ms: wv.last().end_ms,
                    },
                ));
            }
        } else {
            let trimmed = trim_text(&acc);
            let ghost out0 = out.deep_view();
            out.push(SubtitleLine { text: trimmed, start_ms: start, end_ms: last_end });
            proof {
                assert(out.deep_view() =~= out0.push(
                    LineView {
                        text: trim(acc@),
                        start_ms: start as int,
                        end_ms: wv.last().end_ms,
                    },
                ));
            }
        }
    }
    out
}

/// Splits one utterance into subtitle lines: segments the utterance's text
/// with the given tokenizer, aligns the segmentation with the words, and
/// walks the words under the length, duration and punctuation policy.
pub fn split_text_by_punctuation(tokenizer: &Tokenizer, words: &Vec<Word>) -> (r: Vec<
    SubtitleLine,
>)
    ensures
        r.deep_view() == split_by_punctuation_spec(words.deep_view()),
{
    let ghost wv = words.deep_view();
    let n = words.len();
    if n <= LINE_MAX_WORD_LENGTH {
        let flags: Vec<bool> = vec![false; n];
        proof {
            assert(flags@.len() == words@.len());
        }
        let r = split_with_flags(words, &flags);
        proof {
            assert(split_lines(wv, flags@) == split_by_punctuation_spec(wv));
        }
        return r;
    }
    let text = concat_word_texts(words);
    let tokens = tokenizer.segment(&text);
    let flags = match_segments(&tokens, words);
    split_with_flags(words, &flags)
}

} // verus!
