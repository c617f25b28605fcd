//! The language-aware tokenizer: a thin handle over the jieba segmenter.
//! Everything the rest of the pipeline knows about it is that segmenting a
//! text yields an ordered run of substrings whose concatenation is the text
//! again, and that the result is a function of the text alone.
use vstd::prelude::*;

verus! {

/// Declares `jieba_rs::Jieba`, the segmenter type this module holds; the
/// value is opaque to the verifier.
#[verifier::external_type_specification]
#[verifier::external_body]
pub struct ExJieba(jieba_rs::Jieba);

/// What the segmenter returns for a text: an ordered run of substrings.
/// Jieba's cut over its fixed default dictionary, with the HMM disabled,
/// depends on the text alone, so the result bears a name.
pub uninterp spec fn segmentation_of(text: Seq<char>) -> Seq<Seq<char>>;

/// A handle to the language segmenter. Constructing one loads the default
/// dictionary; the handle is read-only afterwards and may be reused for any
/// number of utterances.
pub struct Tokenizer {
    jieba: jieba_rs::Jieba,
}

impl Tokenizer {
    /// Relies on `jieba_rs::Jieba::new`, which builds the segmenter over the
    /// crate's embedded default dictionary.
    #[verifier::external_body]
    pub fn new() -> (t: Tokenizer) {
        Tokenizer { jieba: jieba_rs::Jieba::new() }
    }

    /// Relies on `jieba_rs::Jieba::cut` with the HMM disabled: over the
    /// default dictionary it is a deterministic function of the input text,
    /// and the returned tokens cover the input in order, so their
    /// concatenation is the input again.
    #[verifier::external_body]
    pub(crate) fn segment(&self, text: &Vec<char>) -> (r: Vec<Vec<char>>)
        ensures
            r.deep_view() == segmentation_of(text@),
            r.deep_view().flatten() == text@,
    {
        let s: String = text.iter().collect();
        self.jieba.cut(&s, false).into_iter().map(|t| t.word.chars().collect()).collect()
    }
}

/// Segments a text with a freshly constructed segmenter.
pub fn chinese_tokenize(text: &Vec<char>) -> (r: Vec<Vec<char>>)
    ensures
        r.deep_view() == segmentation_of(text@),
        r.deep_view().flatten() == text@,
{
    let tokenizer = Tokenizer::new();
    tokenizer.segment(text)
}

} // verus!
