use sort_srt::align::match_segments;
use sort_srt::subtitle::Word;

fn word(start_ms: u64, end_ms: u64, text: &str) -> Word {
    Word { start_ms, end_ms, text: text.chars().collect() }
}

fn tokens(ts: &[&str]) -> Vec<Vec<char>> {
    ts.iter().map(|t| t.chars().collect()).collect()
}

#[test]
fn one_segment_per_word_flags_every_word() {
    let words = vec![word(0, 100, "ab"), word(100, 200, "cd")];
    let flags = match_segments(&tokens(&["ab", "cd"]), &words);
    assert_eq!(flags, vec![true, true]);
}

#[test]
fn segment_spanning_two_words_flags_the_second() {
    let words = vec![word(0, 100, "a"), word(100, 200, "b")];
    let flags = match_segments(&tokens(&["ab"]), &words);
    assert_eq!(flags, vec![false, true]);
}

#[test]
fn word_spanning_two_segments_is_flagged() {
    let words = vec![word(0, 100, "ab")];
    let flags = match_segments(&tokens(&["a", "b"]), &words);
    assert_eq!(flags, vec![true]);
}

#[test]
fn count_mismatch_leaves_flags_false() {
    let words = vec![word(0, 100, "a"), word(100, 200, "b")];
    let flags = match_segments(&tokens(&["abc"]), &words);
    assert_eq!(flags, vec![false, false]);
}

#[test]
fn trailing_words_keep_flag_false() {
    let words = vec![word(0, 100, "a"), word(100, 200, "b"), word(200, 300, "c")];
    let flags = match_segments(&tokens(&["a"]), &words);
    assert_eq!(flags, vec![true, false, false]);
}

#[test]
fn no_segments_leaves_all_false() {
    let words = vec![word(0, 100, "a"), word(100, 200, "b")];
    let flags = match_segments(&tokens(&[]), &words);
    assert_eq!(flags, vec![false, false]);
}

#[test]
fn mixed_spans_align_at_common_boundaries() {
    // "ab"+"c" against "a"+"bc": counts meet only after three characters.
    let words = vec![word(0, 100, "ab"), word(100, 200, "c")];
    let flags = match_segments(&tokens(&["a", "bc"]), &words);
    assert_eq!(flags, vec![false, true]);
}
