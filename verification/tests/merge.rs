use sort_srt::merge::merge_subtitles;
use sort_srt::subtitle::SubtitleLine;

fn line(text: &str, start_ms: u64, end_ms: u64) -> SubtitleLine {
    SubtitleLine { text: text.chars().collect(), start_ms, end_ms }
}

#[test]
fn no_blocks_in_no_blocks_out() {
    assert_eq!(merge_subtitles(Vec::new()), Vec::<SubtitleLine>::new());
}

#[test]
fn a_single_block_passes_through() {
    let blocks = vec![line("only", 0, 400)];
    assert_eq!(merge_subtitles(blocks), vec![line("only", 0, 400)]);
}

#[test]
fn overlapping_blocks_count_as_close() {
    // The second block starts before the first ends: the gap is negative,
    // well under the threshold, so the short follower merges in.
    let blocks = vec![line("a", 0, 5000), line("b", 4500, 5200)];
    assert_eq!(merge_subtitles(blocks), vec![line("ab", 0, 5200)]);
}

#[test]
fn short_block_merges_into_close_neighbor() {
    // First block lasts 0.8 s, gap 0.1 s: merged, and seven characters fit
    // on one line.
    let blocks = vec![line("Hi", 0, 800), line("there", 900, 3000)];
    assert_eq!(merge_subtitles(blocks), vec![line("Hithere", 0, 3000)]);
}

#[test]
fn identical_text_collapses_without_duplication() {
    let blocks = vec![line("Hi", 0, 800), line("hi", 900, 1500)];
    assert_eq!(merge_subtitles(blocks), vec![line("Hi", 0, 1500)]);
}

#[test]
fn long_combined_text_goes_on_a_second_line() {
    let blocks = vec![line("aaaaaaaaaa", 0, 800), line("bbbbbbbbbb", 900, 3000)];
    assert_eq!(merge_subtitles(blocks), vec![line("aaaaaaaaaa\nbbbbbbbbbb", 0, 3000)]);
}

#[test]
fn two_line_blocks_absorb_nothing() {
    let blocks = vec![line("a\nb", 0, 500), line("c", 600, 900)];
    assert_eq!(merge_subtitles(blocks), vec![line("a\nb", 0, 500), line("c", 600, 900)]);
}

#[test]
fn wide_gap_prevents_merging() {
    let blocks = vec![line("a", 0, 500), line("b", 1500, 1900)];
    assert_eq!(merge_subtitles(blocks), vec![line("a", 0, 500), line("b", 1500, 1900)]);
}

#[test]
fn long_blocks_are_left_alone() {
    let blocks = vec![line("first", 0, 1500), line("second", 1600, 3000)];
    assert_eq!(
        merge_subtitles(blocks),
        vec![line("first", 0, 1500), line("second", 1600, 3000)]
    );
}

#[test]
fn previous_short_block_absorbs_a_long_follower() {
    // The first block is short; the second is long but close, so the carry
    // flag lets it merge in.
    let blocks = vec![line("ab", 0, 500), line("cd", 700, 5000)];
    assert_eq!(merge_subtitles(blocks), vec![line("abcd", 0, 5000)]);
}

#[test]
fn merging_is_idempotent_on_its_output() {
    let blocks = vec![
        line("Hi", 0, 800),
        line("there", 900, 3000),
        line("again", 4500, 4900),
        line("now", 5100, 8000),
    ];
    let once = merge_subtitles(blocks);
    assert_eq!(
        once,
        vec![line("Hithere", 0, 3000), line("againnow", 4500, 8000)]
    );
    let twice = merge_subtitles(once.clone());
    assert_eq!(twice, once);
}

#[test]
fn chain_of_short_blocks_respects_the_two_line_cap() {
    // Three short close blocks: the first two merge onto two lines; the
    // third finds a two-line block before it and stays alone.
    let blocks = vec![
        line("aaaaaaaaaa", 0, 500),
        line("bbbbbbbbbb", 600, 1000),
        line("c", 1100, 1400),
    ];
    assert_eq!(
        merge_subtitles(blocks),
        vec![line("aaaaaaaaaa\nbbbbbbbbbb", 0, 1000), line("c", 1100, 1400)]
    );
}
