//! Character classes and character-sequence operations shared by the
//! splitter and the merger: the punctuation set, numeric tokens, whitespace
//! trimming, line counting, and case-insensitive comparison.
use vstd::prelude::*;

verus! {

/// The fixed punctuation set that may trigger a line break: Chinese and
/// Western sentence/clause punctuation plus the space character.
pub open spec fn is_punct_char(c: char) -> bool {
    let u = c as u32;
    u == 0x20 // space
    || u == 0x22 // double quote
    || u == 0x27 // apostrophe
    || u == 0x2C // comma
    || u == 0x2014 // em dash
    || u == 0x2026 // horizontal ellipsis
    || u == 0x3001 // ideographic comma
    || u == 0x3002 // ideographic full stop
    || u == 0x300A // left double angle bracket
    || u == 0x300B // right double angle bracket
    || u == 0xFF01 // fullwidth exclamation mark
    || u == 0xFF08 // fullwidth left parenthesis
    || u == 0xFF09 // fullwidth right parenthesis
    || u == 0xFF0C // fullwidth comma
    || u == 0xFF1A // fullwidth colon
    || u == 0xFF1B // fullwidth semicolon
    || u == 0xFF1F // fullwidth question mark
}

/// A character a numeric token is made of: an ASCII digit, a decimal point,
/// or a minus sign.
pub open spec fn is_numeric_char(c: char) -> bool {
    let u = c as u32;
    u == 0x2D || u == 0x2E || (0x30 <= u && u <= 0x39)
}

/// A character with the Unicode `White_Space` property, the set that
/// surrounding-whitespace trimming removes.
pub open spec fn is_space_char(c: char) -> bool {
    let u = c as u32;
    (0x09 <= u && u <= 0x0D) // tab, line feed, vertical tab, form feed, carriage return
    || u == 0x20 // space
    || u == 0x85 // next line
    || u == 0xA0 // no-break space
    || u == 0x1680 // ogham space mark
    || (0x2000 <= u && u <= 0x200A) // en quad .. hair space
    || u == 0x2028 // line separator
    || u == 0x2029 // paragraph separator
    || u == 0x202F // narrow no-break space
    || u == 0x205F // medium mathematical space
    || u == 0x3000 // ideographic space
}

pub fn char_is_punct(c: char) -> (r: bool)
    ensures
        r == is_punct_char(c),
{
    let u = c as u32;
    u == 0x20 || u == 0x22 || u == 0x27 || u == 0x2C || u == 0x2014 || u == 0x2026 || u == 0x3001
        || u == 0x3002 || u == 0x300A || u == 0x300B || u == 0xFF01 || u == 0xFF08 || u == 0xFF09
        || u == 0xFF0C || u == 0xFF1A || u == 0xFF1B || u == 0xFF1F
}

pub fn char_is_numeric(c: char) -> (r: bool)
    ensures
        r == is_numeric_char(c),
{
    let u = c as u32;
    u == 0x2D || u == 0x2E || (0x30 <= u && u <= 0x39)
}

pub fn char_is_space(c: char) -> (r: bool)
    ensures
        r == is_space_char(c),
{
    let u = c as u32;
    (0x09 <= u && u <= 0x0D) || u == 0x20 || u == 0x85 || u == 0xA0 || u == 0x1680 || (0x2000 <= u
        && u <= 0x200A) || u == 0x2028 || u == 0x2029 || u == 0x202F || u == 0x205F || u == 0x3000
}

/// Whether the text holds at least one break-triggering punctuation character.
pub open spec fn contains_punct(s: Seq<char>) -> bool {
    exists|i: int| 0 <= i < s.len() && is_punct_char(s[i])
}

pub fn text_contains_punct(s: &Vec<char>) -> (r: bool)
    ensures
        r == contains_punct(s@),
{
    let mut k: usize = 0;
    while k < s.len()
        invariant
            k <= s@.len(),
            forall|i: int| 0 <= i < k ==> !is_punct_char(s@[i]),
        decreases s@.len() - k,
    {
        if char_is_punct(s[k]) {
            return true;
        }
        k += 1;
    }
    false
}

/// Whether the text is a numeric token: every character is a digit, a
/// decimal point, or a minus sign. The empty text counts as numeric.
pub open spec fn is_numeric_text(s: Seq<char>) -> bool {
    forall|i: int| 0 <= i < s.len() ==> is_numeric_char(s[i])
}

pub fn text_is_numeric(s: &Vec<char>) -> (r: bool)
    ensures
        r == is_numeric_text(s@),
{
    let mut k: usize = 0;
    while k < s.len()
        invariant
            k <= s@.len(),
            forall|i: int| 0 <= i < k ==> is_numeric_char(s@[i]),
        decreases s@.len() - k,
    {
        if !char_is_numeric(s[k]) {
            return false;
        }
        k += 1;
    }
    true
}

/// The text with its leading whitespace removed.
pub open spec fn trim_start(s: Seq<char>) -> Seq<char>
    decreases s.len(),
{
    if s.len() == 0 {
        s
    } else if is_space_char(s.first()) {
        trim_start(s.drop_first())
    } else {
        s
    }
}

/// The text with its trailing whitespace removed.
pub open spec fn trim_end(s: Seq<char>) -> Seq<char>
    decreases s.len(),
{
    if s.len() == 0 {
        s
    } else if is_space_char(s.last()) {
        trim_end(s.drop_last())
    } else {
        s
    }
}

/// The text with surrounding whitespace removed.
pub open spec fn trim(s: Seq<char>) -> Seq<char> {
    trim_end(trim_start(s))
}

proof fn lemma_trim_start_skip(s: Seq<char>, lo: int)
    requires
        0 <= lo <= s.len(),
        forall|k: int| 0 <= k < lo ==> is_space_char(s[k]),
        lo < s.len() ==> !is_space_char(s[lo]),
    ensures
        trim_start(s) == s.subrange(lo, s.len() as int),
    decreases lo,
{
    if lo == 0 {
        assert(s.subrange(0, s.len() as int) =~= s);
    } else {
        let t = s.drop_first();
        lemma_trim_start_skip(t, lo - 1);
        assert(t.subrange(lo - 1, t.len() as int) =~= s.subrange(lo, s.len() as int));
    }
}

proof fn lemma_trim_end_skip(s: Seq<char>, hi: int)
    requires
        0 <= hi <= s.len(),
        forall|k: int| hi <= k < s.len() ==> is_space_char(s[k]),
        hi > 0 ==> !is_space_char(s[hi - 1]),
    ensures
        trim_end(s) == s.subrange(0, hi),
    decreases s.len() - hi,
{
    if hi == s.len() {
        assert(s.subrange(0, s.len() as int) =~= s);
    } else {
        let t = s.drop_last();
        lemma_trim_end_skip(t, hi);
        assert(t.subrange(0, hi) =~= s.subrange(0, hi));
    }
}

/// Trimming never lengthens a text.
pub proof fn lemma_trim_len(s: Seq<char>)
    ensures
        trim(s).len() <= s.len(),
{
    lemma_trim_start_len(s);
    lemma_trim_end_len(trim_start(s));
}

proof fn lemma_trim_start_len(s: Seq<char>)
    ensures
        trim_start(s).len() <= s.len(),
    decreases s.len(),
{
    if s.len() > 0 && is_space_char(s.first()) {
        lemma_trim_start_len(s.drop_first());
    }
}

proof fn lemma_trim_end_len(s: Seq<char>)
    ensures
        trim_end(s).len() <= s.len(),
    decreases s.len(),
{
    if s.len() > 0 && is_space_char(s.last()) {
        lemma_trim_end_len(s.drop_last());
    }
}

/// A text without whitespace is unchanged by trimming.
pub proof fn lemma_trim_no_space(s: Seq<char>)
    requires
        forall|k: int| 0 <= k < s.len() ==> !is_space_char(s[k]),
    ensures
        trim(s) == s,
{
    lemma_trim_start_skip(s, 0);
    assert(trim_start(s) =~= s);
    lemma_trim_end_skip(s, s.len() as int);
    assert(trim_end(s) =~= s);
}

pub fn trim_text(s: &Vec<char>) -> (r: Vec<char>)
    ensures
        r@ == trim(s@),
{
    let mut lo: usize = 0;
    while lo < s.len() && char_is_space(s[lo])
        invariant
            lo <= s@.len(),
            forall|k: int| 0 <= k < lo ==> is_space_char(s@[k]),
        decreases s@.len() - lo,
    {
        lo += 1;
    }
    let mut hi: usize = s.len();
    while hi > lo && char_is_space(s[hi - 1])
        invariant
            lo <= hi <= s@.len(),
            forall|k: int| hi <= k < s@.len() ==> is_space_char(s@[k]),
            lo < s@.len() ==> !is_space_char(s@[lo as int]),
        decreases hi - lo,
    {
        hi -= 1;
    }
    let mut r: Vec<char> = Vec::new();
    let mut k: usize = lo;
    while k < hi
        invariant
            lo <= k <= hi <= s@.len(),
            r@ == s@.subrange(lo as int, k as int),
        decreases hi - k,
    {
        r.push(s[k]);
        assert(s@.subrange(lo as int, k + 1 as int) =~= s@.subrange(lo as int, k as int).push(
            s@[k as int],
        ));
        k += 1;
    }
    proof {
        if hi == lo {
            assert(forall|k: int| 0 <= k < s@.len() ==> is_space_char(s@[k]));
            lemma_trim_start_skip(s@, s@.len() as int);
            lemma_trim_end_skip(trim_start(s@), 0);
            assert(r@ =~= trim(s@));
        } else {
            lemma_trim_start_skip(s@, lo as int);
            let t = s@.subrange(lo as int, s@.len() as int);
            lemma_trim_end_skip(t, hi - lo);
            assert(t.subrange(0, hi - lo) =~= s@.subrange(lo as int, hi as int));
        }
    }
    r
}

/// Appends every character of `src` to `dst`.
pub fn push_all(dst: &mut Vec<char>, src: &Vec<char>)
    ensures
        final(dst)@ == old(dst)@ + src@,
{
    let ghost dst0 = dst@;
    let mut k: usize = 0;
    while k < src.len()
        invariant
            k <= src@.len(),
            dst@ == dst0 + src@.subrange(0, k as int),
        decreases src@.len() - k,
    {
        dst.push(src[k]);
        assert(src@.subrange(0, k + 1 as int) =~= src@.subrange(0, k as int).push(src@[k as int]));
        k += 1;
    }
    assert(src@.subrange(0, src@.len() as int) =~= src@);
}

/// The case-folded code of a character: ASCII uppercase letters map to their
/// lowercase counterparts, every other character to its own code.
pub open spec fn lower_code(c: char) -> int {
    if 0x41 <= c as u32 && c as u32 <= 0x5A {
        c as u32 + 0x20
    } else {
        c as u32 as int
    }
}

/// Equality of two texts up to ASCII case, the comparison the merger uses to
/// collapse identical adjacent blocks.
pub open spec fn eq_ignore_case(a: Seq<char>, b: Seq<char>) -> bool {
    a.len() == b.len() && forall|i: int| 0 <= i < a.len() ==> lower_code(a[i]) == lower_code(b[i])
}

pub fn text_eq_ignore_case(a: &Vec<char>, b: &Vec<char>) -> (r: bool)
    ensures
        r == eq_ignore_case(a@, b@),
{
    if a.len() != b.len() {
        return false;
    }
    let mut k: usize = 0;
    while k < a.len()
        invariant
            a@.len() == b@.len(),
            k <= a@.len(),
            forall|i: int| 0 <= i < k ==> lower_code(a@[i]) == lower_code(b@[i]),
        decreases a@.len() - k,
    {
        let ua = a[k] as u32;
        let ub = b[k] as u32;
        let la = if 0x41 <= ua && ua <= 0x5A {
            ua + 0x20
        } else {
            ua
        };
        let lb = if 0x41 <= ub && ub <= 0x5A {
            ub + 0x20
        } else {
            ub
        };
        if la != lb {
            return false;
        }
        k += 1;
    }
    true
}

/// The number of newline characters in the text.
pub open spec fn newline_count(s: Seq<char>) -> int
    decreases s.len(),
{
    if s.len() == 0 {
        0
    } else {
        newline_count(s.drop_last()) + if s.last() == '\n' {
            1int
        } else {
            0int
        }
    }
}

/// How many lines the text renders as: the empty text has none, and a
/// trailing newline does not open a further line.
pub open spec fn line_count(s: Seq<char>) -> int {
    if s.len() == 0 {
        0
    } else if s.last() == '\n' {
        newline_count(s)
    } else {
        newline_count(s) + 1
    }
}

proof fn lemma_newline_count_bounds(s: Seq<char>)
    ensures
        0 <= newline_count(s) <= s.len(),
    decreases s.len(),
{
    if s.len() > 0 {
        lemma_newline_count_bounds(s.drop_last());
    }
}

pub fn text_line_count(s: &Vec<char>) -> (r: usize)
    ensures
        r as int == line_count(s@),
{
    let mut nl: usize = 0;
    let mut k: usize = 0;
    while k < s.len()
        invariant
            k <= s@.len(),
            nl as int == newline_count(s@.subrange(0, k as int)),
            nl <= k,
        decreases s@.len() - k,
    {
        proof {
            assert(s@.subrange(0, k + 1 as int).drop_last() =~= s@.subrange(0, k as int));
        }
        if s[k] == '\n' {
            nl += 1;
        }
        k += 1;
    }
    assert(s@.subrange(0, s@.len() as int) =~= s@);
    if s.len() == 0 {
        0
    } else if s[s.len() - 1] == '\n' {
        nl
    } else {
        proof {
            lemma_newline_count_bounds(s@.drop_last());
        }
        nl + 1
    }
}

} // verus!
