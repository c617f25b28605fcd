//! The data the pipeline moves: timestamped word tokens coming in and
//! subtitle lines going out. Timestamps are integer milliseconds; text is a
//! vector of characters, viewed as a `Seq<char>`.
use vstd::prelude::*;

verus! {

/// One word of the transcript, with the time span it was spoken in.
#[derive(Debug, Clone, PartialEq, Eq)]
pub struct Word {
    /// When the word starts, in milliseconds.
    pub start_ms: u64,
    /// When the word ends, in milliseconds.
    pub end_ms: u64,
    /// The word's surface text.
    pub text: Vec<char>,
}

/// The mathematical value of a [`Word`].
pub ghost struct WordView {
    pub start_ms: int,
    pub end_ms: int,
    pub text: Seq<char>,
}

impl View for Word {
    type V = WordView;

    open spec fn view(&self) -> WordView {
        WordView { start_ms: self.start_ms as int, end_ms: self.end_ms as int, text: self.text@ }
    }
}

impl DeepView for Word {
    type V = WordView;

    open spec fn deep_view(&self) -> WordView {
        self.view()
    }
}

/// One display-ready subtitle line (after merging: block), spanning a time
/// range.
#[derive(Debug, Clone, PartialEq, Eq)]
pub struct SubtitleLine {
    /// The text shown, one or (after merging) two lines.
    pub text: Vec<char>,
    /// When the line appears, in milliseconds.
    pub start_ms: u64,
    /// When the line disappears, in milliseconds.
    pub end_ms: u64,
}

/// The mathematical value of a [`SubtitleLine`].
pub ghost struct LineView {
    pub text: Seq<char>,
    pub start_ms: int,
    pub end_ms: int,
}

impl View for SubtitleLine {
    type V = LineView;

    open spec fn view(&self) -> LineView {
        LineView { text: self.text@, start_ms: self.start_ms as int, end_ms: self.end_ms as int }
    }
}

impl DeepView for SubtitleLine {
    type V = LineView;

    open spec fn deep_view(&self) -> LineView {
        self.view()
    }
}

/// The texts of an utterance's words, in order.
pub open spec fn word_texts(ws: Seq<WordView>) -> Seq<Seq<char>> {
    ws.map_values(|w: WordView| w.text)
}

/// The concatenated text of an utterance's words.
pub open spec fn utterance_text(ws: Seq<WordView>) -> Seq<char> {
    word_texts(ws).flatten()
}

/// A word occupies a forward time span.
pub open spec fn word_wf(w: WordView) -> bool {
    0 <= w.start_ms <= w.end_ms
}

/// An utterance's words in chronological order: each spans forward in time,
/// and both starts and ends never step backwards.
pub open spec fn words_chronological(ws: Seq<WordView>) -> bool {
    &&& forall|i: int| 0 <= i < ws.len() ==> word_wf(#[trigger] ws[i])
    &&& forall|i: int, j: int|
        0 <= i <= j < ws.len() ==> #[trigger] ws[i].start_ms <= #[trigger] ws[j].start_ms
    &&& forall|i: int, j: int|
        0 <= i <= j < ws.len() ==> #[trigger] ws[i].end_ms <= #[trigger] ws[j].end_ms
}

/// A subtitle line occupies a forward time span.
pub open spec fn line_wf(l: LineView) -> bool {
    0 <= l.start_ms <= l.end_ms
}

/// Lines well-formed and ordered by non-decreasing start time.
pub open spec fn lines_ordered(ls: Seq<LineView>) -> bool {
    &&& forall|i: int| 0 <= i < ls.len() ==> line_wf(#[trigger] ls[i])
    &&& forall|i: int, j: int|
        0 <= i <= j < ls.len() ==> #[trigger] ls[i].start_ms <= #[trigger] ls[j].start_ms
}

/// The texts of a sequence of subtitle lines, concatenated in order.
pub open spec fn lines_text(ls: Seq<LineView>) -> Seq<char> {
    ls.map_values(|l: LineView| l.text).flatten()
}

} // verus!
