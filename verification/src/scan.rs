//! Scanning of path data at the level of single characters: separators,
//! numbers and flags.
//!
//! Every scanner takes the text and a position and hands back what it read
//! together with the position behind it. The text is handled as the bytes of
//! its UTF-8 form: all that the grammar knows is ASCII, but for some white
//! space.

use vstd::prelude::*;
use vstd::slice::slice_subrange;
use crate::decimal::{Dec, Decimal, is_digit, literal_value, text_value};

verus! {

/// How many bytes the white-space character that starts at `i` takes up, or
/// zero where none starts there. White space is what Unicode calls so: the
/// blank and the control characters from tab to carriage return take one
/// byte in UTF-8, next line and the no-break space two, the other spaces and
/// the line and paragraph separators three.
pub open spec fn space_len(t: Seq<u8>, i: int) -> int {
    if !(0 <= i < t.len()) {
        0
    } else if t[i] == 0x20 || (0x09 <= t[i] <= 0x0d) {
        1
    } else if i + 1 < t.len() && t[i] == 0xc2 && (t[i + 1] == 0x85 || t[i + 1] == 0xa0) {
        2
    } else if i + 2 < t.len() && ({
        ||| t[i] == 0xe1 && t[i + 1] == 0x9a && t[i + 2] == 0x80
        ||| t[i] == 0xe2 && t[i + 1] == 0x80 && (0x80 <= t[i + 2] <= 0x8a || t[i + 2] == 0xa8
            || t[i + 2] == 0xa9 || t[i + 2] == 0xaf)
        ||| t[i] == 0xe2 && t[i + 1] == 0x81 && t[i + 2] == 0x9f
        ||| t[i] == 0xe3 && t[i + 1] == 0x80 && t[i + 2] == 0x80
    }) {
        3
    } else {
        0
    }
}

/// The characters a number may be written with: digits, `-` and `.`.
pub open spec fn is_num_char(b: u8) -> bool {
    is_digit(b) || b == 45 || b == 46
}

/// The same text with a blank in place of every comma.
pub open spec fn commas_to_spaces(s: Seq<u8>) -> Seq<u8> {
    Seq::new(s.len(), |i: int| if s[i] == 44 { 32u8 } else { s[i] })
}

/// The first position from `i` on that holds no white space, or the end.
pub open spec fn spaces_end(t: Seq<u8>, i: int) -> int
    decreases t.len() - i,
{
    if space_len(t, i) > 0 {
        spaces_end(t, i + space_len(t, i))
    } else {
        i
    }
}

/// The first position from `i` on that holds no character of a number, or
/// the end.
pub open spec fn num_end(t: Seq<u8>, i: int) -> int
    decreases t.len() - i,
{
    if 0 <= i < t.len() && is_num_char(t[i]) {
        num_end(t, i + 1)
    } else {
        i
    }
}

/// The number that stands at `i` behind optional white space, and the position
/// behind it. The longest run of number characters must be a decimal literal
/// as a whole.
pub open spec fn number_at(t: Seq<u8>, i: int) -> Option<(Dec, int)> {
    let a = spaces_end(t, i);
    let e = num_end(t, a);
    match literal_value(t.subrange(a, e)) {
        Some(d) => Some((d, e)),
        None => None,
    }
}

/// What a run of number characters means as a flag: it must be made of digits
/// only and denote at most 255; any value but zero is `true`.
pub open spec fn flag_value(w: Seq<u8>) -> Option<bool> {
    if w.len() > 0 && (forall|j: int| 0 <= j < w.len() ==> is_digit(#[trigger] w[j]))
        && text_value(w) <= 255 {
        Some(text_value(w) > 0)
    } else {
        None
    }
}

/// The flag that stands at `i` behind optional white space, and the position
/// behind it.
pub open spec fn flag_at(t: Seq<u8>, i: int) -> Option<(bool, int)> {
    let a = spaces_end(t, i);
    let e = num_end(t, a);
    match flag_value(t.subrange(a, e)) {
        Some(b) => Some((b, e)),
        None => None,
    }
}

/// White space ends within the text, at a place where no white space
/// starts.
pub proof fn lemma_spaces_end(t: Seq<u8>, i: int)
    requires
        0 <= i <= t.len(),
    ensures
        i <= spaces_end(t, i) <= t.len(),
        space_len(t, spaces_end(t, i)) == 0,
    decreases t.len() - i,
{
    if space_len(t, i) > 0 {
        lemma_spaces_end(t, i + space_len(t, i));
    }
}

/// A run of number characters ends within the text, is made of number
/// characters only, and is not followed by one.
pub proof fn lemma_num_end(t: Seq<u8>, i: int)
    requires
        0 <= i <= t.len(),
    ensures
        i <= num_end(t, i) <= t.len(),
        forall|j: int| i <= j < num_end(t, i) ==> is_num_char(#[trigger] t[j]),
        num_end(t, i) < t.len() ==> !is_num_char(t[num_end(t, i)]),
    decreases t.len() - i,
{
    if i < t.len() && is_num_char(t[i]) {
        lemma_num_end(t, i + 1);
    }
}

/// A number or a flag that was read takes up at least one character.
pub proof fn lemma_scan_advances(t: Seq<u8>, i: int)
    requires
        0 <= i <= t.len(),
    ensures
        number_at(t, i) matches Some((_, e)) ==> i < e <= t.len(),
        flag_at(t, i) matches Some((_, e)) ==> i < e <= t.len(),
{
    lemma_spaces_end(t, i);
    lemma_num_end(t, spaces_end(t, i));
}

/// Puts a blank in place of every comma, so that one kind of separator is
/// left.
pub fn switch_commas_with_spaces(s: &[u8]) -> (r: Vec<u8>)
    ensures
        r@ == commas_to_spaces(s@),
{
    let mut r: Vec<u8> = Vec::with_capacity(s.len());
    let mut i: usize = 0;
    while i < s.len()
        invariant
            i <= s@.len(),
            r@.len() == i,
            forall|j: int| 0 <= j < i ==> r@[j] == commas_to_spaces(s@)[j],
        decreases s@.len() - i,
    {
        let c = s[i];
        r.push(if c == 44 { 32 } else { c });
        i = i + 1;
    }
    assert(r@ =~= commas_to_spaces(s@));
    r
}

/// Tells how many bytes the white-space character at `i` takes up, zero where
/// there is none.
pub fn space_width(s: &[u8], i: usize) -> (r: usize)
    ensures
        r == space_len(s@, i as int),
{
    let n = s.len();
    if i >= n {
        return 0;
    }
    let a = s[i];
    if a == 0x20 || (a >= 0x09 && a <= 0x0d) {
        return 1;
    }
    if n - i >= 2 && a == 0xc2 && (s[i + 1] == 0x85 || s[i + 1] == 0xa0) {
        return 2;
    }
    if n - i < 3 {
        return 0;
    }
    let b = s[i + 1];
    let c = s[i + 2];
    if (a == 0xe1 && b == 0x9a && c == 0x80) || (a == 0xe2 && b == 0x80 && ((c >= 0x80 && c
        <= 0x8a) || c == 0xa8 || c == 0xa9 || c == 0xaf)) || (a == 0xe2 && b == 0x81 && c == 0x9f)
        || (a == 0xe3 && b == 0x80 && c == 0x80) {
        3
    } else {
        0
    }
}

/// Steps over white space.
pub fn trim_left(s: &[u8], i: usize) -> (r: usize)
    requires
        i <= s@.len(),
    ensures
        r == spaces_end(s@, i as int),
        i <= r <= s@.len(),
{
    let n = s.len();
    let mut k: usize = i;
    proof {
        lemma_spaces_end(s@, i as int);
    }
    loop
        invariant
            i <= k <= n,
            n == s@.len(),
            spaces_end(s@, k as int) == spaces_end(s@, i as int),
        ensures
            space_len(s@, k as int) == 0,
        decreases s@.len() - k,
    {
        let w = space_width(s, k);
        if w == 0 {
            break ;
        }
        k = k + w;
    }
    k
}

/// Finds where the run of number characters that starts at `i` ends.
pub fn split_num(s: &[u8], i: usize) -> (r: usize)
    requires
        i <= s@.len(),
    ensures
        r == num_end(s@, i as int),
        i <= r <= s@.len(),
{
    let mut k: usize = i;
    proof {
        lemma_num_end(s@, i as int);
    }
    while k < s.len() && ((s[k] >= 48 && s[k] <= 57) || s[k] == 45 || s[k] == 46)
        invariant
            i <= k <= s@.len(),
            num_end(s@, k as int) == num_end(s@, i as int),
        decreases s@.len() - k,
    {
        k = k + 1;
    }
    k
}

/// Reads a number: white space, then a decimal literal.
pub fn get_number(s: &[u8], i: usize) -> (r: Option<(Decimal, usize)>)
    requires
        i <= s@.len(),
    ensures
        match number_at(s@, i as int) {
            Some((d, e)) => r matches Some((x, k)) && x@ == d && k == e,
            None => r is None,
        },
        r matches Some((_, k)) ==> i < k <= s@.len(),
{
    let a = trim_left(s, i);
    let e = split_num(s, a);
    proof {
        lemma_scan_advances(s@, i as int);
    }
    match Decimal::parse(slice_subrange(s, a, e)) {
        Some(x) => Some((x, e)),
        None => None,
    }
}

/// Reads a flag: white space, then digits that denote at most 255. Zero is
/// `false`, anything else `true`.
pub fn get_bool(s: &[u8], i: usize) -> (r: Option<(bool, usize)>)
    requires
        i <= s@.len(),
    ensures
        match flag_at(s@, i as int) {
            Some((b, e)) => r matches Some((x, k)) && x == b && k == e,
            None => r is None,
        },
        r matches Some((_, k)) ==> i < k <= s@.len(),
{
    let a = trim_left(s, i);
    let e = split_num(s, a);
    let ghost w = s@.subrange(a as int, e as int);
    proof {
        lemma_scan_advances(s@, i as int);
    }
    if a == e {
        return None;
    }
    let mut value: u32 = 0;
    let mut k: usize = a;
    while k < e
        invariant
            a <= k <= e <= s@.len(),
            a == spaces_end(s@, i as int),
            e == num_end(s@, a as int),
            w == s@.subrange(a as int, e as int),
            forall|j: int| 0 <= j < k - a ==> is_digit(#[trigger] w[j]),
            value <= 256,
            value == (if text_value(w.take(k - a)) <= 256 {
                text_value(w.take(k - a))
            } else {
                256
            }),
        decreases e - k,
    {
        let c = s[k];
        if c < 48 || c > 57 {
            proof {
                assert(w[k - a] == c);
                assert(!is_digit(w[k - a]));
            }
            return None;
        }
        proof {
            assert(w.take(k - a + 1).drop_last() =~= w.take(k - a));
            assert(w.take(k - a + 1).last() == c);
        }
        let next: u32 = value * 10 + (c - 48) as u32;
        value = if next > 256 { 256 } else { next };
        k = k + 1;
    }
    proof {
        assert(w.take(e - a) =~= w);
    }
    if value > 255 {
        None
    } else {
        Some((value > 0, e))
    }
}

} // verus!
