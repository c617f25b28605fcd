//! The block merger: walks the full ordered run of subtitle lines and folds
//! a block into its predecessor when one of the two is short, the gap
//! between them is small, and the predecessor still shows a single text
//! line. Identical adjacent texts collapse without duplication; otherwise
//! the texts concatenate, on one line while the result stays short enough.
use vstd::prelude::*;
use vstd::pervasive::VecAdditionalExecFns;

use crate::subtitle::{LineView, SubtitleLine};
use crate::text::{eq_ignore_case, line_count, push_all, text_eq_ignore_case, text_line_count};
use crate::{LINE_MAX_WORD_LENGTH, MERGE_THRESHOLD_MS};

verus! {

/// A block shorter than the merge threshold wants to be merged into a
/// neighbor.
pub open spec fn needs_merge(l: LineView) -> bool {
    l.end_ms - l.start_ms < MERGE_THRESHOLD_MS as int
}

/// One step of the merger's fold: `out` is what has been emitted, `pending`
/// says whether the last emitted block is still eligible to absorb a merge,
/// and `cur` is the incoming block.
pub open spec fn merge_step(out: Seq<LineView>, pending: bool, cur: LineView) -> (Seq<
    LineView,
>, bool) {
    let need = needs_merge(cur);
    if out.len() > 0 && (pending || need) && cur.start_ms - out.last().end_ms
        < MERGE_THRESHOLD_MS as int && line_count(out.last().text) < 2 {
        let prev = out.last();
        let text = if eq_ignore_case(prev.text, cur.text) {
            prev.text
        } else if prev.text.len() + cur.text.len() <= LINE_MAX_WORD_LENGTH as int {
            prev.text + cur.text
        } else {
            prev.text + seq!['\n'] + cur.text
        };
        (
            out.update(
                out.len() - 1,
                LineView { text, start_ms: prev.start_ms, end_ms: cur.end_ms },
            ),
            false,
        )
    } else {
        (out.push(cur), need)
    }
}

/// The merger's fold from block `i` on.
pub open spec fn merge_walk(lines: Seq<LineView>, i: int, out: Seq<LineView>, pending: bool) -> Seq<
    LineView,
>
    decreases lines.len() - i,
{
    if i < 0 || i >= lines.len() {
        out
    } else {
        let step = merge_step(out, pending, lines[i]);
        merge_walk(lines, i + 1, step.0, step.1)
    }
}

/// The merged form of the full ordered run of subtitle lines.
pub open spec fn merge_lines(lines: Seq<LineView>) -> Seq<LineView> {
    merge_walk(lines, 0, Seq::empty(), false)
}

/// Coalesces adjacent short or close subtitle blocks, keeping every block
/// at no more than two text lines.
pub fn merge_subtitles(blocks: Vec<SubtitleLine>) -> (r: Vec<SubtitleLine>)
    ensures
        r.deep_view() == merge_lines(blocks.deep_view()),
{
    let ghost bv = blocks.deep_view();
    let ghost target = merge_lines(bv);
    let mut out: Vec<SubtitleLine> = Vec::new();
    let mut pending = false;
    let mut i: usize = 0;
    proof {
        assert(out.deep_view() =~= Seq::<LineView>::empty());
    }
    while i < blocks.len()
        invariant
            i <= blocks@.len(),
            blocks.deep_view() == bv,
            bv.len() == blocks@.len(),
            merge_walk(bv, i as int, out.deep_view(), pending) == target,
        decreases blocks@.len() - i,
    {
        let ghost out0 = out.deep_view();
        let ghost pending0 = pending;
        let cur = &blocks[i];
        proof {
            assert(bv[i as int] == blocks@[i as int]@);
        }
        let need = cur.end_ms <= cur.start_ms || cur.end_ms - cur.start_ms < MERGE_THRESHOLD_MS;
        proof {
            assert(need == needs_merge(bv[i as int]));
        }
        let mut do_merge = false;
        if out.len() > 0 {
            let prev = &out[out.len() - 1];
            let gap_small = cur.start_ms <= prev.end_ms || cur.start_ms - prev.end_ms
                < MERGE_THRESHOLD_MS;
            proof {
                assert(gap_small == (bv[i as int].start_ms - out0.last().end_ms
                    < MERGE_THRESHOLD_MS as int));
            }
            if (pending || need) && gap_small && text_line_count(&prev.text) < 2 {
                do_merge = true;
            }
        }
        if do_merge {
            let idx = out.len() - 1;
            proof {
                assert(out0.last() == out@[idx as int]@);
            }
            let same = text_eq_ignore_case(&out[idx].text, &cur.text);
            let mut text: Vec<char> = Vec::new();
            push_all(&mut text, &out[idx].text);
            let ghost prev_text = out0.last().text;
            let ghost cur_text = bv[i as int].text;
            if !same {
                let fits = cur.text.len() <= LINE_MAX_WORD_LENGTH && out[idx].text.len()
                    <= LINE_MAX_WORD_LENGTH - cur.text.len();
                proof {
                    assert(fits == (prev_text.len() + cur_text.len()
                        <= LINE_MAX_WORD_LENGTH as int));
                }
                if fits {
                    push_all(&mut text, &cur.text);
                    proof {
                        assert(text@ =~= prev_text + cur_text);
                    }
                } else {
                    text.push('\n');
                    push_all(&mut text, &cur.text);
                    proof {
                        assert(text@ =~= prev_text + seq!['\n'] + cur_text);
                    }
                }
            } else {
                proof {
                    assert(text@ =~= prev_text);
                }
            }
            let start_ms = out[idx].start_ms;
            out.set(idx, SubtitleLine { text, start_ms, end_ms: cur.end_ms });
            pending = false;
            proof {
                let step = merge_step(out0, pending0, bv[i as int]);
                assert(out.deep_view() =~= step.0);
            }
        } else {
            let mut text: Vec<char> = Vec::new();
            push_all(&mut text, &cur.text);
            out.push(SubtitleLine { text, start_ms: cur.start_ms, end_ms: cur.end_ms });
            pending = need;
            proof {
                assert(out.deep_view() =~= out0.push(bv[i as int]));
            }
        }
        i += 1;
    }
    out
}

} // verus!
