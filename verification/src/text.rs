//! Character-level string helpers: decoding to characters, building
//! strings, ASCII case folding, trimming, integer parsing, and the
//! display width of text in terminal cells.

use vstd::prelude::*;

verus! {

/// The index of the first `true` in `s`.
pub open spec fn first_true(s: Seq<bool>) -> Option<int> {
    if exists|i: int| 0 <= i < s.len() && s[i] {
        Some(choose|i: int| is_first_true(s, i))
    } else {
        None
    }
}

pub open spec fn is_first_true(s: Seq<bool>, i: int) -> bool {
    &&& 0 <= i < s.len()
    &&& s[i]
    &&& forall|j: int| 0 <= j < i ==> !s[j]
}

/// The index of the last `true` in `s`.
pub open spec fn last_true(s: Seq<bool>) -> Option<int> {
    if exists|i: int| 0 <= i < s.len() && s[i] {
        Some(choose|i: int| is_last_true(s, i))
    } else {
        None
    }
}

pub open spec fn is_last_true(s: Seq<bool>, i: int) -> bool {
    &&& 0 <= i < s.len()
    &&& s[i]
    &&& forall|j: int| i < j < s.len() ==> !s[j]
}

pub proof fn lemma_first_true(s: Seq<bool>, i: int)
    requires
        is_first_true(s, i),
    ensures
        first_true(s) == Some(i),
{
    let c = choose|k: int| is_first_true(s, k);
    assert(is_first_true(s, c));
    if c < i {
        assert(!s[c]);
    } else if c > i {
        assert(!s[i]);
    }
}

/// Some `true` in `s` means a first one exists and `first_true` finds it.
pub proof fn lemma_exists_first_true(s: Seq<bool>, w: int)
    requires
        0 <= w < s.len(),
        s[w],
    ensures
        exists|i: int| is_first_true(s, i),
        first_true(s) matches Some(f) && is_first_true(s, f),
    decreases w,
{
    if exists|j: int| 0 <= j < w && s[j] {
        let j = choose|j: int| 0 <= j < w && s[j];
        lemma_exists_first_true(s, j);
    } else {
        assert(is_first_true(s, w));
    }
}

/// Some `true` in `s` means a last one exists and `last_true` finds it.
pub proof fn lemma_exists_last_true(s: Seq<bool>, w: int)
    requires
        0 <= w < s.len(),
        s[w],
    ensures
        exists|i: int| is_last_true(s, i),
        last_true(s) matches Some(l) && is_last_true(s, l),
    decreases s.len() - w,
{
    if exists|j: int| w < j < s.len() && s[j] {
        let j = choose|j: int| w < j < s.len() && s[j];
        lemma_exists_last_true(s, j);
    } else {
        assert(is_last_true(s, w));
    }
}

pub proof fn lemma_last_true(s: Seq<bool>, i: int)
    requires
        is_last_true(s, i),
    ensures
        last_true(s) == Some(i),
{
    let c = choose|k: int| is_last_true(s, k);
    assert(is_last_true(s, c));
    if c < i {
        assert(!s[i]);
    } else if c > i {
        assert(!s[c]);
    }
}


/// The characters of `s`, in order.
pub fn chars_of(s: &str) -> (r: Vec<char>)
    ensures
        r@ == s@,
{
    let mut out: Vec<char> = Vec::new();
    for c in it: s.chars()
        invariant
            out@ == it.seq().take(it.index() as int),
    {
        out.push(c);
    }
    assert(out@ =~= s@);
    out
}

/// `String::push`: append one character.
#[verifier::external_body]
pub fn push_char(s: &mut String, c: char)
    ensures
        final(s)@ == old(s)@.push(c),
{
    s.push(c);
}

/// A string holding `cs`.
pub fn string_from_chars(cs: &Vec<char>) -> (r: String)
    ensures
        r@ == cs@,
{
    let mut out = String::new();
    let mut i: usize = 0;
    while i < cs.len()
        invariant
            i <= cs@.len(),
            out@ == cs@.take(i as int),
        decreases cs.len() - i,
    {
        push_char(&mut out, cs[i]);
        assert(cs@.take(i + 1) =~= cs@.take(i as int).push(cs@[i as int]));
        i = i + 1;
    }
    assert(cs@.take(i as int) =~= cs@);
    out
}

/// ASCII lower-casing of one character; every other character is kept.
pub open spec fn ascii_lower(c: char) -> char {
    if 'A' <= c && c <= 'Z' {
        ((c as u32) + 32) as char
    } else {
        c
    }
}

pub open spec fn ascii_lower_seq(s: Seq<char>) -> Seq<char> {
    s.map_values(|c: char| ascii_lower(c))
}

pub fn to_ascii_lower(c: char) -> (r: char)
    ensures
        r == ascii_lower(c),
{
    if 'A' <= c && c <= 'Z' {
        ((c as u8) + 32) as char
    } else {
        c
    }
}

/// `to_ascii_lowercase` over a whole string.
pub fn lower_chars(s: &str) -> (r: Vec<char>)
    ensures
        r@ == ascii_lower_seq(s@),
{
    let cs = chars_of(s);
    let mut out: Vec<char> = Vec::new();
    let mut i: usize = 0;
    while i < cs.len()
        invariant
            i <= cs@.len(),
            cs@ == s@,
            out@ =~= ascii_lower_seq(cs@).take(i as int),
        decreases cs.len() - i,
    {
        out.push(to_ascii_lower(cs[i]));
        i = i + 1;
    }
    out
}

/// Whether `s` and `t` are equal ignoring ASCII case.
pub fn eq_ignore_ascii_case(s: &str, t: &str) -> (r: bool)
    ensures
        r == (ascii_lower_seq(s@) == ascii_lower_seq(t@)),
{
    let a = lower_chars(s);
    let b = lower_chars(t);
    if a.len() != b.len() {
        return false;
    }
    let mut i: usize = 0;
    while i < a.len()
        invariant
            i <= a@.len(),
            a@ == ascii_lower_seq(s@),
            b@ == ascii_lower_seq(t@),
            a@.len() == b@.len(),
            forall|k: int| 0 <= k < i ==> a@[k] == b@[k],
        decreases a.len() - i,
    {
        if a[i] != b[i] {
            assert(a@[i as int] != b@[i as int]);
            return false;
        }
        i = i + 1;
    }
    assert(a@ =~= b@);
    true
}

/// Whether `p` is a prefix of `s`.
pub open spec fn is_prefix(p: Seq<char>, s: Seq<char>) -> bool {
    p.len() <= s.len() && s.take(p.len() as int) == p
}

pub fn starts_with(s: &Vec<char>, p: &Vec<char>) -> (r: bool)
    ensures
        r == is_prefix(p@, s@),
{
    if p.len() > s.len() {
        return false;
    }
    let mut i: usize = 0;
    while i < p.len()
        invariant
            p@.len() <= s@.len(),
            i <= p@.len(),
            forall|j: int| 0 <= j < i ==> s@[j] == p@[j],
        decreases p.len() - i,
    {
        if s[i] != p[i] {
            assert(s@.take(p@.len() as int)[i as int] != p@[i as int]);
            return false;
        }
        i = i + 1;
    }
    assert(s@.take(p@.len() as int) =~= p@);
    true
}

/// Unicode `White_Space` characters (what `char::is_whitespace` tests).
pub open spec fn is_ws(c: char) -> bool {
    ||| c == ' '
    ||| ('\t' <= c && c <= '\r')
    ||| c == '\u{85}'
    ||| c == '\u{A0}'
    ||| c == '\u{1680}'
    ||| ('\u{2000}' <= c && c <= '\u{200A}')
    ||| c == '\u{2028}'
    ||| c == '\u{2029}'
    ||| c == '\u{202F}'
    ||| c == '\u{205F}'
    ||| c == '\u{3000}'
}

pub fn is_whitespace(c: char) -> (r: bool)
    ensures
        r == is_ws(c),
{
    c == ' ' || ('\t' <= c && c <= '\r') || c == '\u{85}' || c == '\u{A0}' || c == '\u{1680}' || ('\u{2000}'
        <= c && c <= '\u{200A}') || c == '\u{2028}' || c == '\u{2029}' || c == '\u{202F}' || c
        == '\u{205F}' || c == '\u{3000}'
}

/// `s` with leading and trailing whitespace removed, as `str::trim`.
pub open spec fn trimmed(s: Seq<char>) -> Seq<char> {
    let content = s.map_values(|c: char| !is_ws(c));
    match (first_true(content), last_true(content)) {
        (Some(a), Some(b)) => s.subrange(a, b + 1),
        _ => Seq::empty(),
    }
}

/// The bounds `[start, end)` of `cs` without its leading and trailing
/// whitespace.
pub fn trim_bounds(cs: &Vec<char>) -> (r: (usize, usize))
    ensures
        r.0 <= r.1 <= cs@.len(),
        cs@.subrange(r.0 as int, r.1 as int) == trimmed(cs@),
{
    let ghost content = cs@.map_values(|c: char| !is_ws(c));
    let mut a: usize = 0;
    while a < cs.len()
        invariant
            a <= cs@.len(),
            content == cs@.map_values(|c: char| !is_ws(c)),
            forall|j: int| 0 <= j < a ==> !content[j],
        ensures
            a <= cs@.len(),
            forall|j: int| 0 <= j < a ==> !content[j],
            a < cs@.len() ==> content[a as int],
        decreases cs.len() - a,
    {
        if !is_whitespace(cs[a]) {
            break;
        }
        a = a + 1;
    }
    if a == cs.len() {
        assert(!(exists|i: int| 0 <= i < content.len() && content[i]));
        return (0, 0);
    }
    assert(is_first_true(content, a as int));
    proof {
        lemma_first_true(content, a as int);
    }
    let mut b: usize = cs.len();
    while b > a + 1
        invariant
            a < b <= cs@.len(),
            content[a as int],
            content == cs@.map_values(|c: char| !is_ws(c)),
            forall|j: int| b <= j < cs@.len() ==> !content[j],
        ensures
            a < b <= cs@.len(),
            forall|j: int| b <= j < cs@.len() ==> !content[j],
            content[b - 1],
        decreases b,
    {
        if !is_whitespace(cs[b - 1]) {
            break;
        }
        b = b - 1;
    }
    assert(is_last_true(content, b - 1));
    proof {
        lemma_last_true(content, b - 1);
    }
    (a, b)
}

/// Value of a run of ASCII digits.
pub open spec fn digits_value(s: Seq<char>) -> nat
    decreases s.len(),
{
    if s.len() == 0 {
        0
    } else {
        digits_value(s.drop_last()) * 10 + ((s.last() as u32) - ('0' as u32)) as nat
    }
}

pub open spec fn all_digits(s: Seq<char>) -> bool {
    forall|i: int| 0 <= i < s.len() ==> '0' <= #[trigger] s[i] && s[i] <= '9'
}

/// `s.parse::<u32>()`: an optional `+` then one or more ASCII digits
/// whose value fits in a `u32`.
pub open spec fn parse_u32(s: Seq<char>) -> Option<u32> {
    let body = if s.len() > 0 && s[0] == '+' {
        s.drop_first()
    } else {
        s
    };
    if body.len() > 0 && all_digits(body) && digits_value(body) <= u32::MAX {
        Some(digits_value(body) as u32)
    } else {
        None
    }
}

pub fn parse_u32_chars(s: &Vec<char>, from: usize, to: usize) -> (r: Option<u32>)
    requires
        from <= to <= s@.len(),
    ensures
        r == parse_u32(s@.subrange(from as int, to as int)),
{
    let ghost whole = s@.subrange(from as int, to as int);
    let start = if from < to && s[from] == '+' {
        from + 1
    } else {
        from
    };
    let ghost body = s@.subrange(start as int, to as int);
    assert(body =~= (if whole.len() > 0 && whole[0] == '+' {
        whole.drop_first()
    } else {
        whole
    }));
    assert(parse_u32(whole) == if body.len() > 0 && all_digits(body) && digits_value(body) <= u32::MAX {
        Some(digits_value(body) as u32)
    } else {
        None
    });
    if start == to {
        return None;
    }
    let mut acc: u64 = 0;
    let mut i: usize = start;
    while i < to
        invariant
            start <= i <= to <= s@.len(),
            body == s@.subrange(start as int, to as int),
            all_digits(s@.subrange(start as int, i as int)),
            acc == digits_value(s@.subrange(start as int, i as int)),
            acc <= u32::MAX,
            body.len() > 0,
            parse_u32(s@.subrange(from as int, to as int)) == (if body.len() > 0 && all_digits(body)
                && digits_value(body) <= u32::MAX {
                Some(digits_value(body) as u32)
            } else {
                None
            }),
        decreases to - i,
    {
        let c = s[i];
        assert(s@.subrange(start as int, i + 1).drop_last() =~= s@.subrange(start as int, i as int));
        if c < '0' || c > '9' {
            assert(!all_digits(body)) by {
                assert(body[i - start] == c);
            }
            return None;
        }
        let d = (c as u32 - '0' as u32) as u64;
        let next = acc * 10 + d;
        if next > u32::MAX as u64 {
            proof {
                let pre = s@.subrange(start as int, i + 1);
                assert(pre.last() == c);
                assert(digits_value(pre) == next);
                if all_digits(body) {
                    lemma_digits_value_grows(body, (i - start + 1) as int);
                    assert(body.take((i - start + 1) as int) =~= pre);
                }
            }
            return None;
        }
        proof {
            let pre = s@.subrange(start as int, i + 1);
            assert(pre.last() == c);
            assert(digits_value(pre) == next);
            assert(all_digits(pre)) by {
                assert forall|j: int| 0 <= j < pre.len() implies '0' <= #[trigger] pre[j] && pre[j] <= '9' by {
                    if j < pre.len() - 1 {
                        assert(pre[j] == s@.subrange(start as int, i as int)[j]);
                    }
                }
            }
        }
        acc = next;
        i = i + 1;
    }
    assert(s@.subrange(start as int, i as int) =~= body);
    Some(acc as u32)
}

/// A prefix's value is at most the whole run's value.
proof fn lemma_digits_value_grows(s: Seq<char>, k: int)
    requires
        0 <= k <= s.len(),
        all_digits(s),
    ensures
        digits_value(s.take(k)) <= digits_value(s),
    decreases s.len() - k,
{
    if k < s.len() {
        lemma_digits_value_grows(s, k + 1);
        assert(s.take(k + 1).drop_last() =~= s.take(k));
        assert('0' <= s[k] && s[k] <= '9');
    } else {
        assert(s.take(k) =~= s);
    }
}

} // verus!

verus! {

/// Display width of `s` in terminal cells, as `unicode_width` measures
/// a string (ambiguous-width characters count 1).
pub uninterp spec fn str_width(s: Seq<char>) -> usize;

/// Display width of one character in terminal cells, as `unicode_width`
/// measures it (`None` for control characters).
pub uninterp spec fn char_width(c: char) -> Option<usize>;

/// `UnicodeWidthStr::width` (unicode-width): the display width of `s`.
/// Its value is only named, not stated.
#[verifier::external_body]
pub fn display_width(s: &str) -> (r: usize)
    ensures
        r == str_width(s@),
{
    unicode_width::UnicodeWidthStr::width(s)
}

/// `UnicodeWidthChar::width` (unicode-width): the display width of one
/// character, `None` for control characters. Its value is only named.
#[verifier::external_body]
pub fn char_display_width(c: char) -> (r: Option<usize>)
    ensures
        r == char_width(c),
{
    unicode_width::UnicodeWidthChar::width(c)
}

/// The number of extended grapheme clusters of `s`, as
/// `unicode_segmentation` splits it.
pub uninterp spec fn graphemes_of(s: Seq<char>) -> usize;

/// `UnicodeSegmentation::graphemes(s, true).count()` (unicode-segmentation):
/// the number of extended grapheme clusters of `s`. Its value is only
/// named, not stated.
#[verifier::external_body]
pub(crate) fn grapheme_count(s: &str) -> (r: usize)
    ensures
        r == graphemes_of(s@),
{
    unicode_segmentation::UnicodeSegmentation::graphemes(s, true).count()
}

} // verus!
