use sort_srt::split::split_with_flags;
use sort_srt::subtitle::{SubtitleLine, Word};

fn word(start_ms: u64, end_ms: u64, text: &str) -> Word {
    Word { start_ms, end_ms, text: text.chars().collect() }
}

fn line(text: &str, start_ms: u64, end_ms: u64) -> SubtitleLine {
    SubtitleLine { text: text.chars().collect(), start_ms, end_ms }
}

#[test]
fn empty_utterance_produces_no_lines() {
    let words: Vec<Word> = Vec::new();
    let flags: Vec<bool> = Vec::new();
    assert_eq!(split_with_flags(&words, &flags), Vec::<SubtitleLine>::new());
}

#[test]
fn short_utterance_is_one_line() {
    let words = vec![word(0, 400, "Hello"), word(400, 500, " "), word(500, 1000, "world")];
    let flags = vec![false; 3];
    assert_eq!(split_with_flags(&words, &flags), vec![line("Hello world", 0, 1000)]);
}

#[test]
fn fast_path_keeps_surrounding_whitespace() {
    let words = vec![word(0, 300, " a ")];
    let flags = vec![false];
    assert_eq!(split_with_flags(&words, &flags), vec![line(" a ", 0, 300)]);
}

#[test]
fn comma_breaks_once_minimum_length_reached() {
    // Twenty one-character words of half a second each, a comma at the
    // eleventh: the comma breaks at length eleven, and the nine-character
    // remainder is long enough to stand as its own line.
    let mut words = Vec::new();
    for i in 0..20u64 {
        let text = if i == 10 { "," } else { "a" };
        words.push(word(500 * i, 500 * (i + 1), text));
    }
    let flags = vec![true; 20];
    assert_eq!(
        split_with_flags(&words, &flags),
        vec![line("aaaaaaaaaa,", 0, 5500), line("aaaaaaaaa", 5500, 10000)]
    );
}

#[test]
fn short_remainder_folds_into_previous_line() {
    // A comma break at fourteen characters leaves a three-character
    // remainder, at most half the minimum length, so it folds back.
    let mut words = Vec::new();
    for i in 0..17u64 {
        let text = if i == 13 { "," } else { "a" };
        words.push(word(100 * i, 100 * (i + 1), text));
    }
    let flags = vec![false; 17];
    assert_eq!(
        split_with_flags(&words, &flags),
        vec![line("aaaaaaaaaaaaa,aaa", 0, 1700)]
    );
}

#[test]
fn no_flag_means_no_forced_break() {
    // General path, no punctuation, every alignment flag false: the length
    // rule may never fire, so the whole utterance stays one line.
    let mut words = Vec::new();
    for i in 0..17u64 {
        words.push(word(100 * i, 100 * (i + 1), "a"));
    }
    let flags = vec![false; 17];
    assert_eq!(
        split_with_flags(&words, &flags),
        vec![line("aaaaaaaaaaaaaaaaa", 0, 1700)]
    );
}

#[test]
fn length_rule_breaks_at_flagged_word() {
    // Twenty one-character words, all flagged: the length rule fires at
    // sixteen characters, and the four-character remainder folds back.
    let mut words = Vec::new();
    for i in 0..20u64 {
        words.push(word(100 * i, 100 * (i + 1), "a"));
    }
    let flags = vec![true; 20];
    assert_eq!(
        split_with_flags(&words, &flags),
        vec![line("aaaaaaaaaaaaaaaaaaaa", 0, 2000)]
    );
}

#[test]
fn numeric_token_never_triggers_the_length_rule() {
    let mut words = Vec::new();
    for i in 0..15u64 {
        words.push(word(100 * i, 100 * (i + 1), "a"));
    }
    words.push(word(1500, 1600, "123"));
    words.push(word(1600, 1700, "b"));
    let flags = vec![true; 17];
    assert_eq!(
        split_with_flags(&words, &flags),
        vec![line("aaaaaaaaaaaaaaa123b", 0, 1700)]
    );
}

#[test]
fn duration_rule_breaks_flagged_long_lines() {
    // Two-second words: after six of them the running line is past ten
    // seconds, so it breaks even at six characters. The five-character
    // remainder is short enough to fold into the second line.
    let mut words = Vec::new();
    for i in 0..17u64 {
        words.push(word(2000 * i, 2000 * (i + 1), "a"));
    }
    let flags = vec![true; 17];
    assert_eq!(
        split_with_flags(&words, &flags),
        vec![line("aaaaaa", 0, 12000), line("aaaaaaaaaaa", 12000, 34000)]
    );
}

#[test]
fn output_text_concatenates_back_to_the_input_text() {
    let mut words = Vec::new();
    for i in 0..20u64 {
        let text = if i == 10 { "," } else { "a" };
        words.push(word(500 * i, 500 * (i + 1), text));
    }
    let flags = vec![true; 20];
    let full: Vec<char> = words.iter().flat_map(|w| w.text.clone()).collect();
    let rebuilt: Vec<char> =
        split_with_flags(&words, &flags).into_iter().flat_map(|l| l.text).collect();
    assert_eq!(rebuilt, full);
}

#[test]
fn emitted_lines_are_trimmed() {
    let mut words = Vec::new();
    words.push(word(0, 100, " x"));
    for i in 1..13u64 {
        words.push(word(100 * i, 100 * (i + 1), "a"));
    }
    words.push(word(1300, 1400, ","));
    words.push(word(1400, 1500, "b"));
    words.push(word(1500, 1600, "c"));
    words.push(word(1600, 1700, "d"));
    let flags = vec![false; 17];
    assert_eq!(
        split_with_flags(&words, &flags),
        vec![line("xaaaaaaaaaaaa,bcd", 0, 1700)]
    );
}
