use sort_srt::merge::merge_subtitles;
use sort_srt::split::split_text_by_punctuation;
use sort_srt::subtitle::{SubtitleLine, Word};
use sort_srt::tokenizer::{chinese_tokenize, Tokenizer};

fn word(start_ms: u64, end_ms: u64, text: &str) -> Word {
    Word { start_ms, end_ms, text: text.chars().collect() }
}

fn line(text: &str, start_ms: u64, end_ms: u64) -> SubtitleLine {
    SubtitleLine { text: text.chars().collect(), start_ms, end_ms }
}

fn tokens(ts: &[&str]) -> Vec<Vec<char>> {
    ts.iter().map(|t| t.chars().collect()).collect()
}

#[test]
fn tokenizer_splits_ascii_words_and_spaces() {
    let text: Vec<char> = "hello world".chars().collect();
    assert_eq!(chinese_tokenize(&text), tokens(&["hello", " ", "world"]));
}

#[test]
fn tokenizer_separates_chinese_words_and_punctuation() {
    let text: Vec<char> = "\u{4f60}\u{597d}\u{ff0c}\u{4e16}\u{754c}\u{ff01}".chars().collect();
    assert_eq!(
        chinese_tokenize(&text),
        tokens(&[
            "\u{4f60}\u{597d}",
            "\u{ff0c}",
            "\u{4e16}\u{754c}",
            "\u{ff01}"
        ])
    );
}

#[test]
fn tokenizer_output_concatenates_to_the_input() {
    let text: Vec<char> = "rust 2024, verified!".chars().collect();
    let segments = chinese_tokenize(&text);
    let rebuilt: Vec<char> = segments.into_iter().flatten().collect();
    assert_eq!(rebuilt, text);
}

#[test]
fn long_unsegmented_run_breaks_only_at_its_end() {
    // Twenty ASCII letters form a single linguistic segment, so only the
    // last word closes one: the length rule must wait for it, and the whole
    // utterance comes out as one line.
    let tokenizer = Tokenizer::new();
    let mut words = Vec::new();
    for i in 0..20u64 {
        words.push(word(100 * i, 100 * (i + 1), "a"));
    }
    assert_eq!(
        split_text_by_punctuation(&tokenizer, &words),
        vec![line("aaaaaaaaaaaaaaaaaaaa", 0, 2000)]
    );
}

#[test]
fn short_utterance_skips_the_tokenizer_policy() {
    let tokenizer = Tokenizer::new();
    let words = vec![word(0, 500, "just"), word(500, 600, " "), word(600, 1000, "fine")];
    assert_eq!(
        split_text_by_punctuation(&tokenizer, &words),
        vec![line("just fine", 0, 1000)]
    );
}

#[test]
fn split_then_merge_runs_end_to_end() {
    let tokenizer = Tokenizer::new();
    let mut all = Vec::new();
    all.extend(split_text_by_punctuation(&tokenizer, &vec![word(0, 300, "Hi")]));
    all.extend(split_text_by_punctuation(&tokenizer, &vec![word(400, 3000, "there")]));
    assert_eq!(merge_subtitles(all), vec![line("Hithere", 0, 3000)]);
}
