//! Decimal rendering of integers into strings, for messages and identifiers.

use vstd::prelude::*;
use vstd::string::StringSliceAdditionalSpecFns;

verus! {

/// The ASCII digit character of `d` (0–9).
pub open spec fn digit_char(d: nat) -> char {
    ('0' as nat + d) as char
}

/// Canonical decimal digits of `n`: no leading zero, `0` for zero.
pub open spec fn decimal_chars(n: nat) -> Seq<char>
    decreases n,
{
    if n < 10 {
        seq![digit_char(n)]
    } else {
        decimal_chars(n / 10).push(digit_char(n % 10))
    }
}

/// The one-character string of a decimal digit.
fn digit_str(d: u64) -> (s: &'static str)
    requires
        d < 10,
    ensures
        s@ == seq![digit_char(d as nat)],
{
    proof {
        reveal_strlit("0");
        reveal_strlit("1");
        reveal_strlit("2");
        reveal_strlit("3");
        reveal_strlit("4");
        reveal_strlit("5");
        reveal_strlit("6");
        reveal_strlit("7");
        reveal_strlit("8");
        reveal_strlit("9");
    }
    match d {
        0 => "0",
        1 => "1",
        2 => "2",
        3 => "3",
        4 => "4",
        5 => "5",
        6 => "6",
        7 => "7",
        8 => "8",
        _ => "9",
    }
}

/// Appends the canonical decimal digits of `n`.
pub fn push_decimal(s: &mut String, n: u64)
    ensures
        final(s)@ == old(s)@ + decimal_chars(n as nat),
    decreases n,
{
    if n >= 10 {
        push_decimal(s, n / 10);
    }
    s.append(digit_str(n % 10));
    proof {
        assert(decimal_chars(n as nat) == if n < 10 {
            seq![digit_char(n as nat)]
        } else {
            decimal_chars((n / 10) as nat).push(digit_char((n % 10) as nat))
        });
    }
}


/// Unicode `White_Space`, the characters that `str::trim` removes.
pub open spec fn is_white(c: char) -> bool {
    ('\u{9}' <= c <= '\u{d}') || c == ' ' || c == '\u{85}' || c == '\u{a0}' || c == '\u{1680}'
        || ('\u{2000}' <= c <= '\u{200a}') || c == '\u{2028}' || c == '\u{2029}' || c
        == '\u{202f}' || c == '\u{205f}' || c == '\u{3000}'
}

/// Text that is empty or only whitespace, which `str::trim` empties.
pub open spec fn blank(s: Seq<char>) -> bool {
    forall|i: int| 0 <= i < s.len() ==> is_white(#[trigger] s[i])
}

fn white(c: char) -> (b: bool)
    ensures
        b == is_white(c),
{
    ('\u{9}' <= c && c <= '\u{d}') || c == ' ' || c == '\u{85}' || c == '\u{a0}' || c
        == '\u{1680}' || ('\u{2000}' <= c && c <= '\u{200a}') || c == '\u{2028}' || c
        == '\u{2029}' || c == '\u{202f}' || c == '\u{205f}' || c == '\u{3000}'
}

/// Whether `s` trims to nothing.
pub fn is_blank(s: &str) -> (b: bool)
    ensures
        b == blank(s@),
{
    broadcast use vstd::string::axiom_spec_iter;

    for c in it: s.chars()
        invariant
            it.seq() == s@,
            forall|j: int| 0 <= j < it.index() ==> is_white(#[trigger] it.seq()[j]),
    {
        if !white(c) {
            assert(c == s@[it.index() as int]);
            return false;
        }
    }
    true
}


/// Whether two strings hold the same text, compared byte by byte.
pub fn same_text(a: &str, b: &str) -> (r: bool)
    ensures
        r == (a@ == b@),
{
    let x = a.as_bytes();
    let y = b.as_bytes();
    proof {
        vstd::utf8::encode_utf8_decode_utf8(a@);
        vstd::utf8::encode_utf8_decode_utf8(b@);
    }
    if x.len() != y.len() {
        return false;
    }
    let mut i: usize = 0;
    while i < x.len()
        invariant
            x@ == a.spec_bytes(),
            y@ == b.spec_bytes(),
            x@.len() == y@.len(),
            i <= x@.len(),
            forall|j: int| 0 <= j < i ==> x@[j] == y@[j],
        decreases x@.len() - i,
    {
        if x[i] != y[i] {
            return false;
        }
        i = i + 1;
    }
    assert(x@ =~= y@);
    true
}


/// The UTF-16 code units of one character.
pub open spec fn utf16_of_char(c: char) -> Seq<u16> {
    if (c as u32) < 0x10000 {
        seq![(c as u32) as u16]
    } else {
        seq![
            (0xd800 + ((c as u32) - 0x10000) / 0x400) as u16,
            (0xdc00 + ((c as u32) - 0x10000) % 0x400) as u16,
        ]
    }
}

/// The UTF-16 encoding of a character sequence.
pub open spec fn utf16_of(s: Seq<char>) -> Seq<u16>
    decreases s.len(),
{
    if s.len() == 0 {
        Seq::empty()
    } else {
        utf16_of(s.drop_last()) + utf16_of_char(s.last())
    }
}

/// The number of UTF-8 bytes of one character.
pub open spec fn utf8_width(c: char) -> nat {
    if (c as u32) < 0x80 {
        1
    } else if (c as u32) < 0x800 {
        2
    } else if (c as u32) < 0x10000 {
        3
    } else {
        4
    }
}

/// The UTF-8 encoding of a concatenation is the concatenation of the encodings.
pub proof fn lemma_encode_utf8_concat(a: Seq<char>, b: Seq<char>)
    ensures
        vstd::utf8::encode_utf8(a + b) == vstd::utf8::encode_utf8(a) + vstd::utf8::encode_utf8(b),
    decreases a.len(),
{
    if a.len() == 0 {
        assert(a + b =~= b);
        assert(vstd::utf8::encode_utf8(a) + vstd::utf8::encode_utf8(b) =~= vstd::utf8::encode_utf8(
            b,
        ));
    } else {
        lemma_encode_utf8_concat(a.drop_first(), b);
        assert((a + b).drop_first() =~= a.drop_first() + b);
        assert((a + b)[0] == a[0]);
        assert(vstd::utf8::encode_scalar(a[0] as u32) + (vstd::utf8::encode_utf8(a.drop_first())
            + vstd::utf8::encode_utf8(b)) =~= (vstd::utf8::encode_scalar(a[0] as u32)
            + vstd::utf8::encode_utf8(a.drop_first())) + vstd::utf8::encode_utf8(b));
    }
}

/// One character encodes to [`utf8_width`] bytes.
pub proof fn lemma_encode_utf8_char(c: char)
    ensures
        vstd::utf8::encode_utf8(seq![c]).len() == utf8_width(c),
{
    vstd::utf8::char_is_scalar(c);
    assert(seq![c].drop_first() =~= Seq::<char>::empty());
    assert(vstd::utf8::encode_utf8(Seq::<char>::empty()).len() == 0);
}

/// Encoding a prefix one character longer adds that character's bytes.
pub proof fn lemma_encode_utf8_step(s: Seq<char>, k: int)
    requires
        0 <= k < s.len(),
    ensures
        vstd::utf8::encode_utf8(s.take(k + 1)).len() == vstd::utf8::encode_utf8(s.take(k)).len()
            + utf8_width(s[k]),
        vstd::utf8::encode_utf8(s.take(k + 1)).len() <= vstd::utf8::encode_utf8(s).len(),
{
    assert(s.take(k + 1) =~= s.take(k) + seq![s[k]]);
    lemma_encode_utf8_concat(s.take(k), seq![s[k]]);
    lemma_encode_utf8_char(s[k]);
    assert(s =~= s.take(k + 1) + s.skip(k + 1));
    lemma_encode_utf8_concat(s.take(k + 1), s.skip(k + 1));
}

/// Appends one character with `String::push`; the contract claims only
/// that the text gains that character at its end.
#[verifier::external_body]
pub(crate) fn push_char(s: &mut String, c: char)
    ensures
        final(s)@ == old(s)@.push(c),
{
    s.push(c);
}

/// The number of UTF-8 bytes of one character, as [`utf8_width`] states it.
pub fn char_utf8_width(c: char) -> (n: usize)
    ensures
        n == utf8_width(c),
{
    if (c as u32) < 0x80 {
        1
    } else if (c as u32) < 0x800 {
        2
    } else if (c as u32) < 0x10000 {
        3
    } else {
        4
    }
}

/// Whether `p` is the longest character prefix of `s` whose UTF-8 form has
/// at most `max` bytes.
pub open spec fn longest_utf8_prefix(s: Seq<char>, p: Seq<char>, max: nat) -> bool {
    &&& p.len() <= s.len()
    &&& p == s.take(p.len() as int)
    &&& vstd::utf8::encode_utf8(p).len() <= max
    &&& p.len() < s.len() ==> vstd::utf8::encode_utf8(s.take(p.len() as int + 1)).len() > max
}

/// The longest prefix of `text` that fits `max_bytes` UTF-8 bytes; a
/// character is never split.
pub fn utf8_prefix(text: &str, max_bytes: usize) -> (r: String)
    ensures
        longest_utf8_prefix(text@, r@, max_bytes as nat),
{
    broadcast use vstd::string::axiom_spec_iter;

    let mut out = String::new();
    let ghost mut count: int = 0;
    let mut bytes: usize = 0;
    proof {
        assert(text@.take(0) =~= Seq::<char>::empty());
        assert(vstd::utf8::encode_utf8(Seq::<char>::empty()).len() == 0);
    }
    for c in it: text.chars()
        invariant
            it.seq() == text@,
            count == it.index(),
            out@ == text@.take(count),
            bytes == vstd::utf8::encode_utf8(text@.take(count)).len(),
            bytes <= max_bytes,
    {
        proof {
            assert(c == text@[count]);
            lemma_encode_utf8_step(text@, count);
        }
        let width = char_utf8_width(c);
        if width > max_bytes - bytes {
            return out;
        }
        push_char(&mut out, c);
        proof {
            assert(out@ =~= text@.take(count + 1));
        }
        bytes = bytes + width;
        proof {
            count = count + 1;
        }
    }
    proof {
        assert(text@.take(count) =~= text@);
    }
    out
}

/// The UTF-16 code units of a string.
pub fn utf16_units(s: &str) -> (units: Vec<u16>)
    ensures
        units@ == utf16_of(s@),
{
    broadcast use vstd::string::axiom_spec_iter;

    let mut units: Vec<u16> = Vec::new();
    for c in it: s.chars()
        invariant
            it.seq() == s@,
            units@ == utf16_of(s@.take(it.index() as int)),
    {
        let ghost k = it.index() as int;
        proof {
            assert(c == s@[k]);
            assert(s@.take(k + 1).drop_last() =~= s@.take(k));
            assert(s@.take(k + 1).last() == c);
        }
        let v = c as u32;
        proof {
            vstd::utf8::char_is_scalar(c);
        }
        if v < 0x10000 {
            units.push(v as u16);
            proof {
                assert(units@ =~= utf16_of(s@.take(k)) + utf16_of_char(c));
            }
        } else {
            let w = v - 0x10000;
            units.push((0xd800 + w / 0x400) as u16);
            units.push((0xdc00 + w % 0x400) as u16);
            proof {
                assert(units@ =~= utf16_of(s@.take(k)) + utf16_of_char(c));
            }
        }
    }
    proof {
        assert(s@.take(s@.len() as int) =~= s@);
    }
    units
}

/// Where a UTF-16 offset falls in the UTF-8 bytes of `s`: the byte offset of
/// the character boundary at that many UTF-16 units, or `None` when the
/// offset is past the end or inside a surrogate pair.
pub open spec fn utf16_byte_spec(s: Seq<char>, target: nat) -> Option<nat> {
    if exists|k: int| 0 <= k <= s.len() && #[trigger] utf16_of(s.take(k)).len() == target {
        let k = choose|k: int| 0 <= k <= s.len() && #[trigger] utf16_of(s.take(k)).len() == target;
        Some(vstd::utf8::encode_utf8(s.take(k)).len())
    } else {
        None
    }
}

/// UTF-16 prefix lengths strictly grow with the prefix.
pub proof fn lemma_utf16_prefix_grows(s: Seq<char>, a: int, b: int)
    requires
        0 <= a < b <= s.len(),
    ensures
        utf16_of(s.take(a)).len() < utf16_of(s.take(b)).len(),
    decreases b - a,
{
    assert(s.take(b).drop_last() =~= s.take(b - 1));
    if a < b - 1 {
        lemma_utf16_prefix_grows(s, a, b - 1);
    }
}

/// The byte offset of the character boundary at `target` UTF-16 units, or
/// `None` if it is past the end or splits a surrogate pair.
pub fn utf16_byte(text: &str, target: u32) -> (r: Option<usize>)
    ensures
        match utf16_byte_spec(text@, target as nat) {
            Some(b) => r == Some(b as usize) && b <= vstd::utf8::encode_utf8(text@).len(),
            None => r is None,
        },
{
    broadcast use vstd::string::axiom_spec_iter;

    let total = text.as_bytes().len();
    if target == 0 {
        proof {
            assert(text@.take(0) =~= Seq::<char>::empty());
            assert(utf16_of(text@.take(0)).len() == 0);
            let j = choose|j: int|
                0 <= j <= text@.len() && #[trigger] utf16_of(text@.take(j)).len() == 0;
            if j > 0 {
                lemma_utf16_prefix_grows(text@, 0, j);
            }
        }
        return Some(0);
    }
    let mut units: u64 = 0;
    let mut bytes: usize = 0;
    for c in it: text.chars()
        invariant
            it.seq() == text@,
            total == vstd::utf8::encode_utf8(text@).len(),
            units == utf16_of(text@.take(it.index() as int)).len(),
            bytes == vstd::utf8::encode_utf8(text@.take(it.index() as int)).len(),
            bytes <= total,
            units < target,
            forall|k: int|
                0 <= k <= it.index() ==> #[trigger] utf16_of(text@.take(k)).len() <= units,
    {
        let ghost k = it.index() as int;
        proof {
            assert(c == text@[k]);
            assert(text@.take(k + 1).drop_last() =~= text@.take(k));
            assert(text@.take(k + 1).last() == c);
            lemma_encode_utf8_step(text@, k);
        }
        let v = c as u32;
        let (wide, width): (u64, usize) = if v < 0x80 {
            (1, 1)
        } else if v < 0x800 {
            (1, 2)
        } else if v < 0x10000 {
            (1, 3)
        } else {
            (2, 4)
        };
        units = units + wide;
        bytes = bytes + width;
        assert forall|j: int| 0 <= j <= k + 1 implies #[trigger] utf16_of(text@.take(j)).len()
            <= units by {
            if j < k + 1 {
                lemma_utf16_prefix_grows(text@, j, k + 1);
            }
        }
        if units == target as u64 {
            proof {
                assert(utf16_of(text@.take(k + 1)).len() == target);
                let j = choose|j: int|
                    0 <= j <= text@.len() && #[trigger] utf16_of(text@.take(j)).len() == target;
                if j < k + 1 {
                    lemma_utf16_prefix_grows(text@, j, k + 1);
                } else if j > k + 1 {
                    lemma_utf16_prefix_grows(text@, k + 1, j);
                }
            }
            return Some(bytes);
        }
        if units > target as u64 {
            proof {
                assert forall|j: int| 0 <= j <= text@.len() implies #[trigger] utf16_of(
                    text@.take(j),
                ).len() != target by {
                    if j > k + 1 {
                        lemma_utf16_prefix_grows(text@, k + 1, j);
                    } else if j < k + 1 {
                        if j == k {
                        } else {
                            lemma_utf16_prefix_grows(text@, j, k);
                        }
                    }
                }
            }
            return None;
        }
    }
    proof {
        assert(text@.take(text@.len() as int) =~= text@);
    }
    if units == target as u64 {
        return Some(total);
    }
    proof {
        assert forall|j: int| 0 <= j <= text@.len() implies #[trigger] utf16_of(text@.take(j)).len()
            != target by {
            if j < text@.len() {
                lemma_utf16_prefix_grows(text@, j, text@.len() as int);
            }
        }
    }
    None
}

} // verus!
