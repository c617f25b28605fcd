//! The pipeline's general guarantees, each stated over the spec functions
//! that the executable functions' contracts use: time monotonicity through
//! both passes, text preservation and the length ceiling in the splitter,
//! that forced breaks respect segment boundaries, and that the merger is
//! idempotent once its output leaves nothing to merge.
use vstd::prelude::*;

use crate::merge::{merge_lines, merge_step, merge_walk};
use crate::split::{break_after, split_finish, split_lines, split_walk};
use crate::subtitle::{lines_ordered, lines_text, utterance_text, word_texts, LineView, WordView};
use crate::text::{is_space_char, lemma_trim_no_space, line_count, trim};
use crate::{LINE_MAX_WORD_LENGTH, LINE_MIN_WORD_LENGTH, MERGE_THRESHOLD_MS};

verus! {

/// A text with no whitespace character in it.
pub open spec fn space_free(s: Seq<char>) -> bool {
    forall|k: int| 0 <= k < s.len() ==> !is_space_char(s[k])
}

/// An utterance none of whose words holds a whitespace character.
pub open spec fn space_free_words(ws: Seq<WordView>) -> bool {
    forall|i: int| 0 <= i < ws.len() ==> space_free((#[trigger] ws[i]).text)
}

/// The concatenated text of the words from index `i` on.
pub open spec fn suffix_text(ws: Seq<WordView>, i: int) -> Seq<char>
    decreases ws.len() - i,
{
    if i < 0 || i >= ws.len() {
        Seq::empty()
    } else {
        ws[i].text + suffix_text(ws, i + 1)
    }
}

proof fn lemma_suffix_is_flatten(ws: Seq<WordView>, i: int)
    requires
        0 <= i <= ws.len(),
    ensures
        suffix_text(ws, i) == word_texts(ws).subrange(i, ws.len() as int).flatten(),
    decreases ws.len() - i,
{
    let tail = word_texts(ws).subrange(i, ws.len() as int);
    if i == ws.len() {
        assert(suffix_text(ws, i) =~= tail.flatten());
    } else {
        lemma_suffix_is_flatten(ws, i + 1);
        assert(tail.first() == ws[i].text);
        assert(tail.drop_first() =~= word_texts(ws).subrange(i + 1, ws.len() as int));
        assert(suffix_text(ws, i) =~= tail.flatten());
    }
}

proof fn lemma_suffix_is_utterance(ws: Seq<WordView>)
    ensures
        suffix_text(ws, 0) == utterance_text(ws),
{
    lemma_suffix_is_flatten(ws, 0);
    assert(word_texts(ws).subrange(0, ws.len() as int) =~= word_texts(ws));
}

proof fn lemma_lines_text_push(ls: Seq<LineView>, l: LineView)
    ensures
        lines_text(ls.push(l)) == lines_text(ls) + l.text,
{
    let f = |x: LineView| x.text;
    assert(ls.push(l).map_values(f) =~= ls.map_values(f).push(l.text));
    ls.map_values(f).lemma_flatten_push(l.text);
    assert(lines_text(ls.push(l)) =~= lines_text(ls) + l.text);
}

proof fn lemma_lines_text_empty()
    ensures
        lines_text(Seq::<LineView>::empty()) == Seq::<char>::empty(),
{
    let f = |x: LineView| x.text;
    assert(Seq::<LineView>::empty().map_values(f) =~= Seq::<Seq<char>>::empty());
    assert(lines_text(Seq::<LineView>::empty()) =~= Seq::<char>::empty());
}

proof fn lemma_split_walk_text(
    words: Seq<WordView>,
    flags: Seq<bool>,
    i: int,
    acc: Seq<char>,
    start: int,
    out: Seq<LineView>,
)
    requires
        space_free_words(words),
        space_free(acc),
        0 <= i <= words.len(),
    ensures
        lines_text(split_walk(words, flags, i, acc, start, out)) == lines_text(out) + acc
            + suffix_text(words, i),
    decreases words.len() - i,
{
    if i >= words.len() {
        assert(suffix_text(words, i) =~= Seq::<char>::empty());
        if acc.len() == 0 {
            assert(lines_text(out) + acc + suffix_text(words, i) =~= lines_text(out));
        } else {
            lemma_trim_no_space(acc);
            let end = if words.len() > 0 {
                words.last().end_ms
            } else {
                start
            };
            if acc.len() <= (LINE_MIN_WORD_LENGTH / 2) as int && out.len() > 0 {
                let prev = out.last();
                let merged = LineView {
                    text: prev.text + trim(acc),
                    start_ms: prev.start_ms,
                    end_ms: end,
                };
                lemma_lines_text_push(out.drop_last(), merged);
                assert(out.drop_last().push(prev) =~= out);
                lemma_lines_text_push(out.drop_last(), prev);
                assert(lines_text(out.drop_last().push(merged)) =~= lines_text(out) + acc
                    + suffix_text(words, i));
            } else {
                let line = LineView { text: trim(acc), start_ms: start, end_ms: end };
                lemma_lines_text_push(out, line);
                assert(lines_text(out.push(line)) =~= lines_text(out) + acc + suffix_text(
                    words,
                    i,
                ));
            }
        }
    } else {
        let w = words[i];
        let acc2 = acc + w.text;
        assert(space_free(w.text));
        assert(space_free(acc2)) by {
            assert(forall|k: int|
                0 <= k < acc2.len() ==> !is_space_char(
                    #[trigger] acc2[k],
                )) by {
                assert(forall|k: int|
                    0 <= k < acc2.len() ==> acc2[k] == if k < acc.len() {
                        acc[k]
                    } else {
                        w.text[k - acc.len()]
                    });
            }
        }
        if break_after(w, flags[i], acc2.len() as int, start) {
            lemma_trim_no_space(acc2);
            let line = LineView { text: trim(acc2), start_ms: start, end_ms: w.end_ms };
            let start2 = if i + 1 < words.len() {
                words[i + 1].start_ms
            } else {
                start
            };
            lemma_split_walk_text(words, flags, i + 1, Seq::empty(), start2, out.push(line));
            lemma_lines_text_push(out, line);
            assert(lines_text(out.push(line)) + Seq::<char>::empty() + suffix_text(words, i + 1)
                =~= lines_text(out) + acc + suffix_text(words, i));
        } else {
            lemma_split_walk_text(words, flags, i + 1, acc2, start, out);
            assert(lines_text(out) + acc2 + suffix_text(words, i + 1) =~= lines_text(out) + acc
                + suffix_text(words, i));
        }
    }
}

/// The splitter loses no text and invents none: the concatenation of its
/// output texts is the concatenation of the input words' texts, for any
/// utterance whose words carry no whitespace (trimming removes nothing from
/// such an utterance).
pub proof fn lemma_split_concatenation(words: Seq<WordView>, flags: Seq<bool>)
    requires
        space_free_words(words),
    ensures
        lines_text(split_lines(words, flags)) == utterance_text(words),
{
    if words.len() == 0 {
        lemma_lines_text_empty();
        assert(word_texts(words) =~= Seq::<Seq<char>>::empty());
        assert(utterance_text(words) =~= Seq::<char>::empty());
    } else if words.len() <= LINE_MAX_WORD_LENGTH as int {
        let line = LineView {
            text: utterance_text(words),
            start_ms: words[0].start_ms,
            end_ms: words.last().end_ms,
        };
        lemma_lines_text_empty();
        lemma_lines_text_push(Seq::<LineView>::empty(), line);
        assert(Seq::<LineView>::empty().push(line) =~= split_lines(words, flags));
        assert(lines_text(split_lines(words, flags)) =~= utterance_text(words));
    } else {
        lemma_split_walk_text(
            words,
            flags,
            0,
            Seq::empty(),
            words[0].start_ms as int,
            Seq::empty(),
        );
        lemma_lines_text_empty();
        lemma_suffix_is_utterance(words);
        assert(lines_text(split_lines(words, flags)) =~= utterance_text(words));
    }
}

/// Every pair of adjacent blocks is separated by at least the merge
/// threshold.
pub open spec fn all_gaps_large(ls: Seq<LineView>) -> bool {
    forall|i: int|
        1 <= i < ls.len() ==> (#[trigger] ls[i]).start_ms - ls[i - 1].end_ms
            >= MERGE_THRESHOLD_MS as int
}

/// Every block already shows two text lines.
pub open spec fn all_blocks_full(ls: Seq<LineView>) -> bool {
    forall|i: int| 0 <= i < ls.len() ==> line_count((#[trigger] ls[i]).text) >= 2
}

proof fn lemma_merge_noop_from(ls: Seq<LineView>, i: int, pending: bool)
    requires
        0 <= i <= ls.len(),
        all_gaps_large(ls) || all_blocks_full(ls),
    ensures
        merge_walk(ls, i, ls.take(i), pending) == ls,
    decreases ls.len() - i,
{
    if i == ls.len() {
        assert(ls.take(i) =~= ls);
    } else {
        let out = ls.take(i);
        let step = merge_step(out, pending, ls[i]);
        if i > 0 {
            assert(out.last() == ls[i - 1]);
        }
        assert(step.0 =~= ls.take(i + 1));
        lemma_merge_noop_from(ls, i + 1, step.1);
    }
}

/// A run of blocks in which every gap reaches the merge threshold, or every
/// block already shows two text lines, passes through the merger unchanged.
pub proof fn lemma_merge_noop(ls: Seq<LineView>)
    requires
        all_gaps_large(ls) || all_blocks_full(ls),
    ensures
        merge_lines(ls) == ls,
{
    assert(ls.take(0) =~= Seq::<LineView>::empty());
    lemma_merge_noop_from(ls, 0, false);
}

/// Re-running the merger on its own output changes nothing, whenever that
/// output has every gap at the merge threshold or more, or every block at
/// two text lines already.
pub proof fn lemma_merge_idempotent(ls: Seq<LineView>)
    requires
        all_gaps_large(merge_lines(ls)) || all_blocks_full(merge_lines(ls)),
    ensures
        merge_lines(merge_lines(ls)) == merge_lines(ls),
{
    lemma_merge_noop(merge_lines(ls));
}

proof fn lemma_split_walk_ordered(
    words: Seq<WordView>,
    flags: Seq<bool>,
    i: int,
    acc: Seq<char>,
    start: int,
    out: Seq<LineView>,
)
    requires
        crate::subtitle::words_chronological(words),
        words.len() > 0,
        0 <= i <= words.len(),
        lines_ordered(out),
        exists|k: int| 0 <= k <= i && k < words.len() && start == (#[trigger] words[k]).start_ms,
        out.len() > 0 ==> out.last().start_ms <= start,
    ensures
        lines_ordered(split_walk(words, flags, i, acc, start, out)),
    decreases words.len() - i,
{
    let k = choose|k: int|
        0 <= k <= i && k < words.len() && start == (#[trigger] words[k]).start_ms;
    if i >= words.len() {
        if acc.len() == 0 {
        } else {
            let end = words.last().end_ms;
            assert(words[k].start_ms <= words[words.len() - 1].start_ms);
            if acc.len() <= (LINE_MIN_WORD_LENGTH / 2) as int && out.len() > 0 {
                let prev = out.last();
                let merged = LineView {
                    text: prev.text + trim(acc),
                    start_ms: prev.start_ms,
                    end_ms: end,
                };
                let r = out.drop_last().push(merged);
                assert(prev.start_ms <= start);
                assert(lines_ordered(r)) by {
                    assert(forall|j: int| 0 <= j < r.len() - 1 ==> r[j] == out[j]);
                    assert(r[r.len() - 1] == merged);
                }
            } else {
                let line = LineView { text: trim(acc), start_ms: start, end_ms: end };
                let r = out.push(line);
                assert(lines_ordered(r)) by {
                    assert(forall|j: int| 0 <= j < r.len() - 1 ==> r[j] == out[j]);
                    assert(r[r.len() - 1] == line);
                }
            }
        }
    } else {
        let w = words[i];
        let acc2 = acc + w.text;
        if break_after(w, flags[i], acc2.len() as int, start) {
            assert(words[k].start_ms <= words[i].start_ms);
            let line = LineView { text: trim(acc2), start_ms: start, end_ms: w.end_ms };
            let r = out.push(line);
            assert(lines_ordered(r)) by {
                assert(forall|j: int| 0 <= j < r.len() - 1 ==> r[j] == out[j]);
                assert(r[r.len() - 1] == line);
            }
            if i + 1 < words.len() {
                let start2 = words[i + 1].start_ms;
                assert(words[k].start_ms <= words[i + 1].start_ms);
                lemma_split_walk_ordered(words, flags, i + 1, Seq::empty(), start2, r);
            } else {
                lemma_split_walk_ordered(words, flags, i + 1, Seq::empty(), start, r);
            }
        } else {
            lemma_split_walk_ordered(words, flags, i + 1, acc2, start, out);
        }
    }
}

/// The splitter keeps time monotonic: every output line spans forward in
/// time, and the lines come out in non-decreasing start order, for any
/// chronologically ordered utterance.
pub proof fn lemma_split_monotonic(words: Seq<WordView>, flags: Seq<bool>)
    requires
        crate::subtitle::words_chronological(words),
    ensures
        lines_ordered(split_lines(words, flags)),
{
    if words.len() == 0 {
    } else if words.len() <= LINE_MAX_WORD_LENGTH as int {
        assert(words[0].start_ms <= words[words.len() - 1].start_ms);
        let r = split_lines(words, flags);
        assert(r[0].start_ms <= r[0].end_ms);
    } else {
        assert(words[0].start_ms == (#[trigger] words[0]).start_ms);
        lemma_split_walk_ordered(
            words,
            flags,
            0,
            Seq::empty(),
            words[0].start_ms as int,
            Seq::empty(),
        );
    }
}

/// Words of one non-numeric character each, all closing a linguistic
/// segment.
pub open spec fn unit_nonnumeric_words(ws: Seq<WordView>) -> bool {
    forall|i: int|
        0 <= i < ws.len() ==> (#[trigger] ws[i]).text.len() == 1 && !crate::text::is_numeric_text(
            ws[i].text,
        )
}

/// Every alignment flag set.
pub open spec fn all_flags_set(flags: Seq<bool>) -> bool {
    forall|i: int| 0 <= i < flags.len() ==> flags[i]
}

proof fn lemma_split_walk_ceiling(
    words: Seq<WordView>,
    flags: Seq<bool>,
    i: int,
    acc: Seq<char>,
    start: int,
    out: Seq<LineView>,
)
    requires
        unit_nonnumeric_words(words),
        all_flags_set(flags),
        flags.len() == words.len(),
        0 <= i <= words.len(),
        acc.len() < LINE_MAX_WORD_LENGTH as int,
        forall|j: int|
            0 <= j < out.len() ==> (#[trigger] out[j]).text.len() <= LINE_MAX_WORD_LENGTH as int,
    ensures
        ({
            let r = split_walk(words, flags, i, acc, start, out);
            &&& forall|j: int|
                0 <= j < r.len() - 1 ==> (#[trigger] r[j]).text.len()
                    <= LINE_MAX_WORD_LENGTH as int
            &&& forall|j: int|
                0 <= j < r.len() ==> (#[trigger] r[j]).text.len() <= LINE_MAX_WORD_LENGTH as int
                    + (LINE_MIN_WORD_LENGTH / 2) as int
        }),
    decreases words.len() - i,
{
    if i >= words.len() {
        if acc.len() == 0 {
            let r = split_walk(words, flags, i, acc, start, out);
            assert(r == out);
            assert(forall|j: int|
                0 <= j < r.len() ==> (#[trigger] r[j]).text.len() <= LINE_MAX_WORD_LENGTH as int);
        } else {
            crate::text::lemma_trim_len(acc);
            let end = if words.len() > 0 {
                words.last().end_ms
            } else {
                start
            };
            if acc.len() <= (LINE_MIN_WORD_LENGTH / 2) as int && out.len() > 0 {
                let prev = out.last();
                let merged = LineView {
                    text: prev.text + trim(acc),
                    start_ms: prev.start_ms,
                    end_ms: end,
                };
                let r = out.drop_last().push(merged);
                assert(prev.text.len() <= LINE_MAX_WORD_LENGTH as int);
                assert(merged.text.len() <= LINE_MAX_WORD_LENGTH as int + (LINE_MIN_WORD_LENGTH
                    / 2) as int);
                assert(forall|j: int| 0 <= j < r.len() - 1 ==> r[j] == out[j]);
                assert(r[r.len() - 1] == merged);
                assert(split_walk(words, flags, i, acc, start, out) == r);
                assert(forall|j: int|
                    0 <= j < r.len() - 1 ==> (#[trigger] r[j]).text.len()
                        <= LINE_MAX_WORD_LENGTH as int);
                assert(forall|j: int|
                    0 <= j < r.len() ==> (#[trigger] r[j]).text.len()
                        <= LINE_MAX_WORD_LENGTH as int + (LINE_MIN_WORD_LENGTH / 2) as int);
            } else {
                let line = LineView { text: trim(acc), start_ms: start, end_ms: end };
                let r = out.push(line);
                assert(forall|j: int| 0 <= j < r.len() - 1 ==> r[j] == out[j]);
                assert(r[r.len() - 1] == line);
                assert(split_walk(words, flags, i, acc, start, out) == r);
                assert(forall|j: int|
                    0 <= j < r.len() ==> (#[trigger] r[j]).text.len()
                        <= LINE_MAX_WORD_LENGTH as int);
            }
        }
    } else {
        let w = words[i];
        let acc2 = acc + w.text;
        assert(w.text.len() == 1);
        crate::text::lemma_trim_len(acc2);
        if break_after(w, flags[i], acc2.len() as int, start) {
            let line = LineView { text: trim(acc2), start_ms: start, end_ms: w.end_ms };
            let start2 = if i + 1 < words.len() {
                words[i + 1].start_ms
            } else {
                start
            };
            let r0 = out.push(line);
            assert(line.text.len() <= LINE_MAX_WORD_LENGTH as int);
            assert(forall|j: int| 0 <= j < r0.len() - 1 ==> r0[j] == out[j]);
            assert(r0[r0.len() - 1] == line);
            assert(forall|j: int|
                0 <= j < r0.len() ==> (#[trigger] r0[j]).text.len()
                    <= LINE_MAX_WORD_LENGTH as int);
            lemma_split_walk_ceiling(words, flags, i + 1, Seq::empty(), start2, r0);
            assert(split_walk(words, flags, i, acc, start, out) == split_walk(
                words,
                flags,
                i + 1,
                Seq::empty(),
                start2,
                r0,
            ));
        } else {
            assert(flags[i]);
            assert(acc2.len() < LINE_MAX_WORD_LENGTH as int) by {
                if acc2.len() >= LINE_MAX_WORD_LENGTH as int {
                    assert(break_after(w, flags[i], acc2.len() as int, start));
                }
            }
            lemma_split_walk_ceiling(words, flags, i + 1, acc2, start, out);
            assert(split_walk(words, flags, i, acc, start, out) == split_walk(
                words,
                flags,
                i + 1,
                acc2,
                start,
                out,
            ));
        }
    }
}

/// The length ceiling in the general path: for an utterance of single
/// non-numeric characters, every word closing a segment, no emitted line
/// exceeds the maximum line length except the last, which may carry a short
/// folded-in remainder on top of it.
pub proof fn lemma_split_length_ceiling(words: Seq<WordView>, flags: Seq<bool>)
    requires
        words.len() > LINE_MAX_WORD_LENGTH as int,
        flags.len() == words.len(),
        unit_nonnumeric_words(words),
        all_flags_set(flags),
    ensures
        ({
            let r = split_lines(words, flags);
            &&& forall|j: int|
                0 <= j < r.len() - 1 ==> (#[trigger] r[j]).text.len()
                    <= LINE_MAX_WORD_LENGTH as int
            &&& forall|j: int|
                0 <= j < r.len() ==> (#[trigger] r[j]).text.len() <= LINE_MAX_WORD_LENGTH as int
                    + (LINE_MIN_WORD_LENGTH / 2) as int
        }),
{
    lemma_split_walk_ceiling(
        words,
        flags,
        0,
        Seq::empty(),
        words[0].start_ms as int,
        Seq::empty(),
    );
}

/// Words none of which carries a punctuation character.
pub open spec fn punct_free_words(ws: Seq<WordView>) -> bool {
    forall|i: int| 0 <= i < ws.len() ==> !crate::text::contains_punct((#[trigger] ws[i]).text)
}

/// No alignment flag set.
pub open spec fn no_flags_set(flags: Seq<bool>) -> bool {
    forall|i: int| 0 <= i < flags.len() ==> !flags[i]
}

proof fn lemma_split_walk_nobreak(
    words: Seq<WordView>,
    flags: Seq<bool>,
    i: int,
    acc: Seq<char>,
    start: int,
)
    requires
        punct_free_words(words),
        no_flags_set(flags),
        flags.len() == words.len(),
        0 <= i <= words.len(),
    ensures
        split_walk(words, flags, i, acc, start, Seq::empty()) == split_finish(
            words,
            acc + suffix_text(words, i),
            start,
            Seq::empty(),
        ),
    decreases words.len() - i,
{
    if i >= words.len() {
        assert(acc + suffix_text(words, i) =~= acc);
    } else {
        let w = words[i];
        let acc2 = acc + w.text;
        assert(!break_after(w, flags[i], acc2.len() as int, start));
        lemma_split_walk_nobreak(words, flags, i + 1, acc2, start);
        assert(acc2 + suffix_text(words, i + 1) =~= acc + suffix_text(words, i));
    }
}

/// At a word whose alignment flag is false, only the punctuation rule can
/// break the line: the length and duration rules never fire there, whatever
/// the line's running length and start time.
pub proof fn lemma_unflagged_break_needs_punctuation(w: WordView, acc_len: int, start: int)
    ensures
        break_after(w, false, acc_len, start) ==> crate::text::contains_punct(w.text) && acc_len
            >= LINE_MIN_WORD_LENGTH as int,
{
}

/// Without a set alignment flag the length and duration rules never break:
/// an utterance in the general path with no punctuation and no flag set
/// comes out as one single line spanning the whole utterance.
pub proof fn lemma_no_forced_breaks(words: Seq<WordView>, flags: Seq<bool>)
    requires
        words.len() > LINE_MAX_WORD_LENGTH as int,
        flags.len() == words.len(),
        punct_free_words(words),
        no_flags_set(flags),
        utterance_text(words).len() > 0,
    ensures
        split_lines(words, flags) == seq![
            LineView {
                text: trim(utterance_text(words)),
                start_ms: words[0].start_ms,
                end_ms: words.last().end_ms,
            },
        ],
{
    lemma_split_walk_nobreak(words, flags, 0, Seq::empty(), words[0].start_ms as int);
    lemma_suffix_is_utterance(words);
    assert(Seq::<char>::empty() + suffix_text(words, 0) =~= utterance_text(words));
    let line = LineView {
        text: trim(utterance_text(words)),
        start_ms: words[0].start_ms,
        end_ms: words.last().end_ms,
    };
    assert(split_lines(words, flags) =~= seq![line]);
}

proof fn lemma_merge_order_from(ls: Seq<LineView>, i: int, out: Seq<LineView>, pending: bool)
    requires
        lines_ordered(ls),
        lines_ordered(out),
        0 <= i <= ls.len(),
        out.len() > 0 && i < ls.len() ==> out.last().start_ms <= ls[i].start_ms,
    ensures
        lines_ordered(merge_walk(ls, i, out, pending)),
    decreases ls.len() - i,
{
    if i < ls.len() {
        let step = merge_step(out, pending, ls[i]);
        let cur = ls[i];
        if out.len() > 0 && (pending || crate::merge::needs_merge(cur)) && cur.start_ms
            - out.last().end_ms < MERGE_THRESHOLD_MS as int && line_count(out.last().text) < 2 {
            let prev = out.last();
            let merged = step.0.last();
            assert(merged.start_ms == prev.start_ms);
            assert(merged.end_ms == cur.end_ms);
            assert(prev.start_ms <= cur.start_ms <= cur.end_ms);
            assert(lines_ordered(step.0)) by {
                assert(forall|j: int|
                    0 <= j < step.0.len() - 1 ==> step.0[j] == out[j]
                        && crate::subtitle::line_wf(#[trigger] step.0[j]));
                assert(forall|j: int, k: int|
                    0 <= j <= k < step.0.len() ==> #[trigger] step.0[j].start_ms
                        <= #[trigger] step.0[k].start_ms);
            }
        } else {
            assert(lines_ordered(step.0)) by {
                assert(forall|j: int|
                    0 <= j < step.0.len() - 1 ==> step.0[j] == out[j]);
            }
        }
        lemma_merge_order_from(ls, i + 1, step.0, step.1);
    }
}

/// The merger keeps blocks well-formed and in non-decreasing start order:
/// every output block still spans forward in time, and the output keeps the
/// input's order.
pub proof fn lemma_merge_preserves_order(ls: Seq<LineView>)
    requires
        lines_ordered(ls),
    ensures
        lines_ordered(merge_lines(ls)),
{
    lemma_merge_order_from(ls, 0, Seq::<LineView>::empty(), false);
}

} // verus!
