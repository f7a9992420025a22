//! Core types of selections and tasks (not wire types): identifiers, the
//! selection configuration, task records and page cursors.

use vstd::prelude::*;
use vstd::string::StringSliceAdditionalSpecFns;

use crate::psd::LayerId;
use crate::text::{decimal_chars, digit_char, longest_utf8_prefix, utf8_prefix};

use super::super::error::DocumentError;
use super::super::model::{DocumentId, RevisionId};
use super::error::SelectionError;

verus! {

/// A wall-clock reading, carried through unchanged.
#[verifier::external_type_specification]
#[verifier::external_body]
pub struct ExSystemTime(std::time::SystemTime);

/// `SystemTime::clone`: `SystemTime` is `Copy`, so its clone is the same reading.
pub assume_specification[ <std::time::SystemTime as Clone>::clone ](t: &std::time::SystemTime) -> (r:
    std::time::SystemTime)
    ensures
        r == *t,
;

/// Rejection of a session id that is not 32 lowercase hexadecimal digits.
pub const BAD_SESSION: &'static str = "会话 ID 应为 32 位小写十六进制";

/// Rejection of an identifier that is not a canonical decimal string.
pub const NOT_CANONICAL: &'static str = "标识符应为规范十进制字符串";

/// Rejection of an identifier above the u64 range.
pub const OUT_OF_RANGE: &'static str = "标识符超出 u64 范围";

/// Rejection of a zero identifier where zero is not allowed.
pub const ZERO_ID: &'static str = "标识符不能为零";

/// An ASCII decimal digit byte.
pub open spec fn is_digit(b: u8) -> bool {
    48 <= b <= 57
}

/// An ASCII lowercase hexadecimal digit byte.
pub open spec fn is_hex(b: u8) -> bool {
    is_digit(b) || 97 <= b <= 102
}

/// The number that a string of decimal digit bytes spells.
pub open spec fn digits_value(b: Seq<u8>) -> nat
    decreases b.len(),
{
    if b.len() == 0 {
        0
    } else {
        digits_value(b.drop_last()) * 10 + (b.last() - 48) as nat
    }
}

/// A canonical decimal: 1 to 20 digits, without a leading zero unless it is `0`.
pub open spec fn canonical_decimal(b: Seq<u8>) -> bool {
    &&& 1 <= b.len() <= 20
    &&& forall|i: int| 0 <= i < b.len() ==> is_digit(#[trigger] b[i])
    &&& (b.len() == 1 || b[0] != 48)
}

/// What [`decimal`] answers for the bytes `b`: the number, or the refusal.
pub open spec fn decimal_result(b: Seq<u8>, zero: bool) -> Result<u64, Seq<char>> {
    if !canonical_decimal(b) {
        Err(NOT_CANONICAL@)
    } else if digits_value(b) > u64::MAX {
        Err(OUT_OF_RANGE@)
    } else if digits_value(b) == 0 && !zero {
        Err(ZERO_ID@)
    } else {
        Ok(digits_value(b) as u64)
    }
}

/// Ten to the power `k`.
spec fn pow10(k: nat) -> nat
    decreases k,
{
    if k == 0 {
        1
    } else {
        10 * pow10((k - 1) as nat)
    }
}

/// A number below `10^k` has at most `k` decimal digits.
proof fn lemma_decimal_len(n: nat, k: nat)
    requires
        k >= 1,
        n < pow10(k),
    ensures
        decimal_chars(n).len() <= k,
    decreases k,
{
    if n >= 10 {
        assert(k >= 2) by {
            if k == 1 {
                assert(pow10(1) == 10 * pow10(0));
            }
        }
        assert(pow10(k) == 10 * pow10((k - 1) as nat));
        lemma_decimal_len(n / 10, (k - 1) as nat);
    }
}

/// The UTF-8 bytes of a decimal digit character: one ASCII digit byte.
proof fn lemma_digit_byte(d: nat)
    requires
        d < 10,
    ensures
        vstd::utf8::encode_utf8(seq![digit_char(d)]) == seq![(48 + d) as u8],
{
    let c = digit_char(d);
    let v = c as u32;
    assert(v == 48 + d);
    assert(v <= 0x7F ==> (v & 0x7F) == v) by (bit_vector);
    vstd::utf8::char_is_scalar(c);
    assert(seq![c][0] == c);
    assert(seq![c].drop_first() =~= Seq::<char>::empty());
    assert(vstd::utf8::encode_utf8(Seq::<char>::empty()) =~= Seq::<u8>::empty());
    assert(vstd::utf8::encode_scalar(v) =~= seq![(48 + d) as u8]);
    assert(vstd::utf8::encode_utf8(seq![c]) =~= vstd::utf8::encode_scalar(v) + vstd::utf8::encode_utf8(
        seq![c].drop_first(),
    ));
}

/// The bytes of the decimal digits of `n`: a canonical decimal worth `n`.
proof fn lemma_decimal_bytes(n: nat)
    ensures
        ({
            let b = vstd::utf8::encode_utf8(decimal_chars(n));
            &&& b.len() == decimal_chars(n).len()
            &&& b.len() >= 1
            &&& forall|i: int| 0 <= i < b.len() ==> is_digit(#[trigger] b[i])
            &&& (b.len() == 1 || b[0] != 48)
            &&& (n > 0 ==> b[0] != 48)
            &&& digits_value(b) == n
        }),
    decreases n,
{
    let b = vstd::utf8::encode_utf8(decimal_chars(n));
    if n < 10 {
        lemma_digit_byte(n);
        assert(b == seq![(48 + n) as u8]);
        assert(b.drop_last() =~= Seq::<u8>::empty());
        assert(digits_value(b.drop_last()) == 0);
        assert(b.last() == 48 + n);
        assert(digits_value(b) == n);
    } else {
        let head = decimal_chars(n / 10);
        let hb = vstd::utf8::encode_utf8(head);
        lemma_decimal_bytes(n / 10);
        lemma_digit_byte(n % 10);
        assert(decimal_chars(n) =~= head + seq![digit_char(n % 10)]);
        crate::text::lemma_encode_utf8_concat(head, seq![digit_char(n % 10)]);
        assert(b =~= hb.push((48 + n % 10) as u8));
        assert(b.drop_last() =~= hb);
        assert(b[0] == hb[0]);
        assert forall|i: int| 0 <= i < b.len() implies is_digit(#[trigger] b[i]) by {
            if i < hb.len() {
                assert(b[i] == hb[i]);
            }
        }
        assert(digits_value(b) == digits_value(hb) * 10 + (n % 10));
    }
}

/// Digits that do not start with a zero are worth at least one.
proof fn lemma_leading_digit_positive(b: Seq<u8>)
    requires
        b.len() >= 1,
        b[0] != 48,
        forall|i: int| 0 <= i < b.len() ==> is_digit(#[trigger] b[i]),
    ensures
        digits_value(b) >= 1,
    decreases b.len(),
{
    if b.len() > 1 {
        assert(b.drop_last()[0] == b[0]);
        assert forall|i: int| 0 <= i < b.drop_last().len() implies is_digit(#[trigger] b.drop_last()[i]) by {
            assert(b.drop_last()[i] == b[i]);
        }
        lemma_leading_digit_positive(b.drop_last());
    } else {
        assert(b.drop_last().len() == 0);
        assert(is_digit(b[0]));
    }
}

/// A canonical decimal is the rendering of its value.
proof fn lemma_canonical_is_rendering(b: Seq<u8>)
    requires
        b.len() >= 1,
        b.len() == 1 || b[0] != 48,
        forall|i: int| 0 <= i < b.len() ==> is_digit(#[trigger] b[i]),
    ensures
        b == vstd::utf8::encode_utf8(decimal_chars(digits_value(b))),
    decreases b.len(),
{
    let n = digits_value(b);
    let d = (b.last() - 48) as nat;
    assert(is_digit(b[b.len() - 1]));
    if b.len() == 1 {
        assert(b.drop_last() =~= Seq::<u8>::empty());
        assert(digits_value(b.drop_last()) == 0);
        assert(n == d);
        lemma_digit_byte(d);
        assert(b =~= seq![(48 + d) as u8]);
    } else {
        let head = b.drop_last();
        assert(head[0] == b[0]);
        assert forall|i: int| 0 <= i < head.len() implies is_digit(#[trigger] head[i]) by {
            assert(head[i] == b[i]);
        }
        lemma_leading_digit_positive(head);
        lemma_canonical_is_rendering(head);
        assert(n == digits_value(head) * 10 + d);
        assert(n / 10 == digits_value(head) && n % 10 == d);
        lemma_digit_byte(d);
        assert(decimal_chars(n) =~= decimal_chars(n / 10) + seq![digit_char(d)]);
        crate::text::lemma_encode_utf8_concat(decimal_chars(n / 10), seq![digit_char(d)]);
        assert(b =~= head.push((48 + d) as u8));
    }
}

/// What [`decimal`] accepts is exactly the rendering of the number it gives.
pub proof fn decimal_accepts_only_renderings(b: Seq<u8>, zero: bool)
    ensures
        decimal_result(b, zero) matches Ok(n) ==> b == vstd::utf8::encode_utf8(decimal_chars(n as nat)),
{
    if decimal_result(b, zero) is Ok {
        lemma_canonical_is_rendering(b);
    }
}

/// Rendering a number and parsing it back gives the number: the decimal
/// digits of a `u64` (a positive one, or zero where zero is allowed) are the
/// canonical form that [`decimal`] accepts, worth the same number.
pub proof fn decimal_round_trip(n: u64, zero: bool)
    requires
        n > 0 || zero,
    ensures
        decimal_result(vstd::utf8::encode_utf8(decimal_chars(n as nat)), zero) == Ok::<
            u64,
            Seq<char>,
        >(n),
{
    lemma_decimal_bytes(n as nat);
    assert(n < pow10(20)) by {
        reveal_with_fuel(pow10, 21);
    }
    lemma_decimal_len(n as nat, 20);
}

/// Parses a canonical decimal identifier; `zero` says whether 0 is allowed.
pub fn decimal(value: &str, zero: bool) -> (r: Result<u64, SelectionError>)
    ensures
        match decimal_result(value.spec_bytes(), zero) {
            Ok(n) => r == Ok::<u64, SelectionError>(n),
            Err(m) => r matches Err(SelectionError::InvalidInput(msg)) && msg@ == m,
        },
{
    let bytes = value.as_bytes();
    let n = bytes.len();
    if n == 0 || n > 20 {
        return Err(SelectionError::InvalidInput(NOT_CANONICAL));
    }
    let mut i: usize = 0;
    while i < n
        invariant
            bytes@ == value.spec_bytes(),
            n == bytes@.len(),
            i <= n,
            forall|j: int| 0 <= j < i ==> is_digit(#[trigger] bytes@[j]),
        decreases n - i,
    {
        if !(48 <= bytes[i] && bytes[i] <= 57) {
            assert(!is_digit(bytes@[i as int]));
            return Err(SelectionError::InvalidInput(NOT_CANONICAL));
        }
        i = i + 1;
    }
    if n > 1 && bytes[0] == 48 {
        return Err(SelectionError::InvalidInput(NOT_CANONICAL));
    }
    let mut acc: u64 = 0;
    let mut k: usize = 0;
    while k < n
        invariant
            bytes@ == value.spec_bytes(),
            canonical_decimal(bytes@),
            n == bytes@.len(),
            k <= n,
            acc == digits_value(bytes@.take(k as int)),
            forall|j: int| 0 <= j < n ==> is_digit(#[trigger] bytes@[j]),
        decreases n - k,
    {
        assert(bytes@.take(k + 1).drop_last() =~= bytes@.take(k as int));
        assert(bytes@.take(k + 1).last() == bytes@[k as int]);
        let d = (bytes[k] - 48) as u64;
        assert(digits_value(bytes@.take(k + 1)) == acc * 10 + d);
        match acc.checked_mul(10) {
            None => {
                assert(digits_value(bytes@) >= digits_value(bytes@.take(k + 1))) by {
                    prefix_value_monotone(bytes@, k + 1);
                }
                return Err(SelectionError::InvalidInput(OUT_OF_RANGE));
            },
            Some(t) => match t.checked_add(d) {
                None => {
                    assert(digits_value(bytes@) >= digits_value(bytes@.take(k + 1))) by {
                        prefix_value_monotone(bytes@, k + 1);
                    }
                    return Err(SelectionError::InvalidInput(OUT_OF_RANGE));
                },
                Some(v) => {
                    acc = v;
                },
            },
        }
        k = k + 1;
    }
    assert(bytes@.take(n as int) =~= bytes@);
    if acc == 0 && !zero {
        return Err(SelectionError::InvalidInput(ZERO_ID));
    }
    Ok(acc)
}

/// A longer digit prefix never spells a smaller number.
proof fn prefix_value_monotone(b: Seq<u8>, k: int)
    requires
        0 <= k <= b.len(),
        forall|j: int| 0 <= j < b.len() ==> is_digit(#[trigger] b[j]),
    ensures
        digits_value(b) >= digits_value(b.take(k)),
    decreases b.len() - k,
{
    if k < b.len() {
        prefix_value_monotone(b, k + 1);
        assert(b.take(k + 1).drop_last() =~= b.take(k));
    } else {
        assert(b.take(k) =~= b);
    }
}

/// Identity of one core instance; it tells sessions apart and is no credential.
#[derive(Debug, Clone)]
pub struct SessionId(String);

impl View for SessionId {
    type V = Seq<char>;

    closed spec fn view(&self) -> Seq<char> {
        self.0@
    }
}

impl PartialEq for SessionId {
    fn eq(&self, other: &Self) -> (r: bool) {
        self.0 == other.0
    }
}

impl vstd::std_specs::cmp::PartialEqSpecImpl for SessionId {
    open spec fn obeys_eq_spec() -> bool {
        true
    }

    open spec fn eq_spec(&self, other: &Self) -> bool {
        self@ == other@
    }
}

impl Eq for SessionId {

}

/// The lowercase hexadecimal digit character of `d` (0–15).
pub open spec fn hex_char(d: nat) -> char {
    if d < 10 {
        digit_char(d)
    } else {
        ('a' as nat + (d - 10)) as char
    }
}

/// The last `n` hexadecimal digits of `v`, most significant first.
pub open spec fn hex_digits(v: nat, n: nat) -> Seq<char>
    decreases n,
{
    if n == 0 {
        Seq::empty()
    } else {
        hex_digits(v / 16, (n - 1) as nat).push(hex_char(v % 16))
    }
}

/// A well-formed session id: 32 lowercase hexadecimal digits.
pub open spec fn session_chars_valid(s: Seq<char>) -> bool {
    s.len() == 32 && forall|i: int| 0 <= i < s.len() ==> hex_char_ok(#[trigger] s[i])
}

/// A lowercase hexadecimal digit character.
pub open spec fn hex_char_ok(c: char) -> bool {
    ('0' <= c <= '9') || ('a' <= c <= 'f')
}

/// A well-formed session id as bytes.
pub open spec fn session_bytes_valid(b: Seq<u8>) -> bool {
    b.len() == 32 && forall|i: int| 0 <= i < b.len() ==> is_hex(#[trigger] b[i])
}


/// Every digit of [`hex_digits`] is a lowercase hexadecimal character.
proof fn hex_digits_valid(v: nat, n: nat)
    ensures
        hex_digits(v, n).len() == n,
        forall|i: int| 0 <= i < n ==> hex_char_ok(#[trigger] hex_digits(v, n)[i]),
    decreases n,
{
    if n > 0 {
        hex_digits_valid(v / 16, (n - 1) as nat);
        assert forall|i: int| 0 <= i < n implies hex_char_ok(#[trigger] hex_digits(v, n)[i]) by {
            if i < n - 1 {
                assert(hex_digits(v, n)[i] == hex_digits(v / 16, (n - 1) as nat)[i]);
            } else {
                let d = v % 16;
                assert(hex_digits(v, n)[i] == hex_char(d));
            }
        }
    }
}

/// The one-character string of a hexadecimal digit.
fn hex_str(d: u64) -> (s: &'static str)
    requires
        d < 16,
    ensures
        s@ == seq![hex_char(d as nat)],
{
    proof {
        reveal_strlit("0");
        reveal_strlit("1");
        reveal_strlit("2");
        reveal_strlit("3");
        reveal_strlit("4");
        reveal_strlit("5");
        reveal_strlit("6");
        reveal_strlit("7");
        reveal_strlit("8");
        reveal_strlit("9");
        reveal_strlit("a");
        reveal_strlit("b");
        reveal_strlit("c");
        reveal_strlit("d");
        reveal_strlit("e");
        reveal_strlit("f");
    }
    match d {
        0 => "0",
        1 => "1",
        2 => "2",
        3 => "3",
        4 => "4",
        5 => "5",
        6 => "6",
        7 => "7",
        8 => "8",
        9 => "9",
        10 => "a",
        11 => "b",
        12 => "c",
        13 => "d",
        14 => "e",
        _ => "f",
    }
}

/// Appends the last `n` hexadecimal digits of `v`.
fn push_hex(s: &mut String, v: u64, n: u64)
    ensures
        final(s)@ == old(s)@ + hex_digits(v as nat, n as nat),
    decreases n,
{
    if n > 0 {
        push_hex(s, v / 16, n - 1);
        s.append(hex_str(v % 16));
    }
}

/// `RandomState::new`: a hasher builder with fresh random keys. Nothing is
/// promised of the keys.
#[verifier::external_body]
fn random_state() -> std::collections::hash_map::RandomState {
    std::collections::hash_map::RandomState::new()
}

/// `BuildHasher::hash_one`: the hash of `salt` under `state`'s keys. It
/// depends on the process's random seed, so nothing is promised of it.
#[verifier::external_body]
fn hash_one(state: &std::collections::hash_map::RandomState, salt: u8) -> u64 {
    std::hash::BuildHasher::hash_one(state, salt)
}

/// A fresh word from a newly seeded hasher.
fn random_word(salt: u8) -> u64 {
    let state = random_state();
    hash_one(&state, salt)
}

impl SessionId {
    /// The session id of two words: their 16-digit lowercase hexadecimal forms, joined.
    pub fn from_words(a: u64, b: u64) -> (id: SessionId)
        ensures
            id@ == hex_digits(a as nat, 16) + hex_digits(b as nat, 16),
            session_chars_valid(id@),
    {
        let mut text = String::new();
        push_hex(&mut text, a, 16);
        push_hex(&mut text, b, 16);
        proof {
            assert(text@ =~= hex_digits(a as nat, 16) + hex_digits(b as nat, 16));
            hex_digits_valid(a as nat, 16);
            hex_digits_valid(b as nat, 16);
            assert forall|i: int| 0 <= i < 32 implies hex_char_ok(#[trigger] text@[i]) by {
                if i < 16 {
                    assert(text@[i] == hex_digits(a as nat, 16)[i]);
                } else {
                    assert(text@[i] == hex_digits(b as nat, 16)[i - 16]);
                }
            }
        }
        SessionId(text)
    }

    /// A new session id from two randomly seeded hashers; neither the time nor
    /// the process id is taken as a uniqueness guarantee.
    pub fn new() -> (id: SessionId)
        ensures
            session_chars_valid(id@),
    {
        let a = random_word(0);
        let b = random_word(1);
        SessionId::from_words(a, b)
    }

    /// The session id as text, for boundary contracts; not ordered across instances.
    pub fn as_str(&self) -> (s: &str)
        ensures
            s@ == self@,
    {
        self.0.as_str()
    }

    /// Accepts exactly 32 lowercase hexadecimal digits.
    pub fn parse(value: &str) -> (r: Result<SessionId, SelectionError>)
        ensures
            session_bytes_valid(value.spec_bytes()) ==> (r matches Ok(id) && id@ == value@),
            !session_bytes_valid(value.spec_bytes()) ==> (r matches Err(
                SelectionError::InvalidInput(m),
            ) && m@ == BAD_SESSION@),
    {
        let bytes = value.as_bytes();
        if bytes.len() != 32 {
            return Err(SelectionError::InvalidInput(BAD_SESSION));
        }
        let mut i: usize = 0;
        while i < 32
            invariant
                bytes@ == value.spec_bytes(),
                bytes@.len() == 32,
                i <= 32,
                forall|j: int| 0 <= j < i ==> is_hex(#[trigger] bytes@[j]),
            decreases 32 - i,
        {
            let c = bytes[i];
            if !((48 <= c && c <= 57) || (97 <= c && c <= 102)) {
                assert(!is_hex(bytes@[i as int]));
                return Err(SelectionError::InvalidInput(BAD_SESSION));
            }
            i = i + 1;
        }
        Ok(SessionId(value.to_owned()))
    }
}

impl std::str::FromStr for SessionId {
    type Err = SelectionError;

    fn from_str(value: &str) -> (r: Result<Self, Self::Err>)
        ensures
            session_bytes_valid(value.spec_bytes()) ==> (r matches Ok(id) && id@ == value@),
            !session_bytes_valid(value.spec_bytes()) ==> (r matches Err(
                SelectionError::InvalidInput(m),
            ) && m@ == BAD_SESSION@),
    {
        SessionId::parse(value)
    }
}

/// A session id that the core made always parses back to itself.
pub proof fn session_id_round_trip(id: &SessionId, text: &str)
    requires
        session_chars_valid(id@),
        text@ == id@,
    ensures
        session_bytes_valid(text.spec_bytes()),
{
    broadcast use vstd::string::is_ascii_spec_bytes;

    assert(vstd::string::is_ascii(text));
    assert(text.spec_bytes().len() == 32);
    assert forall|i: int| 0 <= i < 32 implies is_hex(#[trigger] text.spec_bytes()[i]) by {
        assert(hex_char_ok(text@[i]));
        assert(text.spec_bytes()[i] == text@[i] as u8);
    }
}

/// Global monotone version of active document, revision and selection.
#[derive(Debug, Clone, Copy, PartialEq, Eq, Structural)]
pub struct SelectionRevision(pub u64);

/// Identity of one immutable selection within an instance.
#[derive(Debug, Clone, Copy, PartialEq, Eq, Structural)]
pub struct SnapshotId(pub u64);

/// Identity of a design scope binding; not an agent or export job state.
#[derive(Debug, Clone, Copy, PartialEq, Eq, Structural)]
pub struct TaskId(pub u64);

impl SelectionRevision {
    /// The number within this session.
    pub fn get(self) -> (n: u64)
        ensures
            n == self.0,
    {
        self.0
    }
}

impl SnapshotId {
    /// The number within this session.
    pub fn get(self) -> (n: u64)
        ensures
            n == self.0,
    {
        self.0
    }
}

impl TaskId {
    /// The number within this session.
    pub fn get(self) -> (n: u64)
        ensures
            n == self.0,
    {
        self.0
    }
}

impl std::str::FromStr for SelectionRevision {
    type Err = SelectionError;

    fn from_str(value: &str) -> (r: Result<Self, Self::Err>)
        ensures
            match decimal_result(value.spec_bytes(), true) {
                Ok(n) => r == Ok::<SelectionRevision, SelectionError>(SelectionRevision(n)),
                Err(m) => r matches Err(SelectionError::InvalidInput(msg)) && msg@ == m,
            },
    {
        match decimal(value, true) {
            Ok(n) => Ok(SelectionRevision(n)),
            Err(e) => Err(e),
        }
    }
}

impl std::str::FromStr for SnapshotId {
    type Err = SelectionError;

    fn from_str(value: &str) -> (r: Result<Self, Self::Err>)
        ensures
            match decimal_result(value.spec_bytes(), false) {
                Ok(n) => r == Ok::<SnapshotId, SelectionError>(SnapshotId(n)),
                Err(m) => r matches Err(SelectionError::InvalidInput(msg)) && msg@ == m,
            },
    {
        match decimal(value, false) {
            Ok(n) => Ok(SnapshotId(n)),
            Err(e) => Err(e),
        }
    }
}

impl std::str::FromStr for TaskId {
    type Err = SelectionError;

    fn from_str(value: &str) -> (r: Result<Self, Self::Err>)
        ensures
            match decimal_result(value.spec_bytes(), false) {
                Ok(n) => r == Ok::<TaskId, SelectionError>(TaskId(n)),
                Err(m) => r matches Err(SelectionError::InvalidInput(msg)) && msg@ == m,
            },
    {
        match decimal(value, false) {
            Ok(n) => Ok(TaskId(n)),
            Err(e) => Err(e),
        }
    }
}

/// An outside document reference, checked for form before it may be looked up.
#[derive(Debug, Clone, Copy, PartialEq, Eq, Structural)]
pub struct DocumentReference {
    pub document_id: DocumentId,
    pub revision_id: RevisionId,
}

impl DocumentReference {
    /// Accepts non-zero canonical decimals only; whether the reference is still
    /// live is for the service to check.
    pub fn parse(document: &str, revision: &str) -> (r: Result<Self, SelectionError>)
        ensures
            match (decimal_result(document.spec_bytes(), false), decimal_result(
                revision.spec_bytes(),
                false,
            )) {
                (Ok(d), Ok(v)) => r matches Ok(x) && x == (DocumentReference {
                    document_id: DocumentId(d),
                    revision_id: RevisionId(v),
                }),
                (Err(m), _) => r matches Err(SelectionError::InvalidInput(msg)) && msg@ == m,
                (Ok(_), Err(m)) => r matches Err(SelectionError::InvalidInput(msg)) && msg@ == m,
            },
    {
        let document_id = DocumentId(decimal(document, false)?);
        let revision_id = RevisionId(decimal(revision, false)?);
        Ok(DocumentReference { document_id, revision_id })
    }
}

/// A layer reference with its document and revision; never replaced by a
/// layer of the same name or another document's local id.
#[derive(Debug, Clone, Copy, PartialEq, Eq, Structural)]
pub struct LayerReference {
    pub document_id: DocumentId,
    pub revision_id: RevisionId,
    pub layer_id: LayerId,
}

/// Fixed scope and capability limits; not a truncation that a next page removes.
#[derive(Debug, Clone, Copy, PartialEq, Eq, Structural)]
pub enum SelectionWarning {
    GeometricBoundsOnly,
    NoReferenceBounds,
    PixelDependenciesUnresolved,
}

/// Effective targets, and structure records that only explain the hierarchy
/// and grant nothing.
#[derive(Debug, Clone, Copy, PartialEq, Eq, Structural)]
pub enum LayerRole {
    Target,
    Structure,
}

/// Whether the whole hit bounds of a layer lie inside the selected rectangle.
#[derive(Debug, Clone, Copy, PartialEq, Eq, Structural)]
pub enum IntersectionKind {
    Contained,
    Partial,
}

/// Binding and release are supported; a task of a purged document is invalidated.
#[derive(Debug, Clone, Copy, PartialEq, Eq, Structural)]
pub enum TaskStatus {
    Active,
    Released,
    Invalidated,
}

/// Most UTF-8 bytes of a selection's display name.
pub const DISPLAY_NAME_BYTES: usize = 256;

/// The display name of a selection's document: its file name cut to the
/// longest prefix of at most 256 UTF-8 bytes, never inside a character. It
/// labels snapshots and task records; nothing is located or authorised by it.
pub fn display_name(file_name: &str) -> (r: String)
    ensures
        longest_utf8_prefix(file_name@, r@, DISPLAY_NAME_BYTES as nat),
{
    utf8_prefix(file_name, DISPLAY_NAME_BYTES)
}

/// Fixed revision and scope counts; the display name has at most 256 UTF-8
/// bytes, may be shortened, and never locates anything.
#[derive(Debug, Clone)]
pub struct SnapshotBrief {
    pub snapshot_id: SnapshotId,
    pub document_id: DocumentId,
    pub revision_id: RevisionId,
    pub document_name: String,
    pub target_count: u32,
    pub content_count: u32,
    pub text_layer_count: u32,
}

/// The plain content of a [`SnapshotBrief`]: ids, display name and counts.
pub type BriefView = (SnapshotId, DocumentId, RevisionId, Seq<char>, u32, u32, u32);

impl View for SnapshotBrief {
    type V = BriefView;

    open spec fn view(&self) -> BriefView {
        (
            self.snapshot_id,
            self.document_id,
            self.revision_id,
            self.document_name@,
            self.target_count,
            self.content_count,
            self.text_layer_count,
        )
    }
}

impl SnapshotBrief {
    /// A copy of the brief.
    pub fn duplicate(&self) -> (r: SnapshotBrief)
        ensures
            r@ == self@,
    {
        SnapshotBrief {
            snapshot_id: self.snapshot_id,
            document_id: self.document_id,
            revision_id: self.revision_id,
            document_name: self.document_name.clone(),
            target_count: self.target_count,
            content_count: self.content_count,
            text_layer_count: self.text_layer_count,
        }
    }
}

/// The plain content of a [`DesignTask`]: scope, ids, name, creation time and status.
pub type TaskView = (BriefView, TaskId, SnapshotId, Seq<char>, std::time::SystemTime, TaskStatus);

impl View for DesignTask {
    type V = TaskView;

    open spec fn view(&self) -> TaskView {
        (self.scope@, self.id, self.snapshot_id, self.name@, self.created_at, self.status)
    }
}

impl DesignTask {
    /// A copy of the record.
    pub fn duplicate(&self) -> (r: DesignTask)
        ensures
            r@ == self@,
    {
        DesignTask {
            scope: self.scope.duplicate(),
            id: self.id,
            snapshot_id: self.snapshot_id,
            name: self.name.clone(),
            created_at: self.created_at,
            status: self.status,
        }
    }
}

/// A bounded task record; after release it keeps a small final state and the
/// request dedup information, not the source revision.
#[derive(Debug, Clone)]
pub struct DesignTask {
    pub scope: SnapshotBrief,
    pub id: TaskId,
    pub snapshot_id: SnapshotId,
    pub name: String,
    pub created_at: std::time::SystemTime,
    pub status: TaskStatus,
}

/// A page of tasks in ascending id order; final records stay, so a release
/// never shifts a page.
#[derive(Debug)]
pub struct TaskPage {
    pub tasks: Vec<DesignTask>,
    pub next_after: Option<TaskId>,
    pub total: usize,
    pub capacity: usize,
}

/// Rejection of zero selection quotas or a content page size out of range.
pub const BAD_SELECTION_CONFIG: &'static str = "选区额度必须非零，内容页应为 1–256 KiB";

/// Selection quotas; the byte figures charge scope objects only.
#[derive(Debug, Clone, Copy, PartialEq, Eq, Structural)]
pub struct SelectionConfig {
    /// Raw layer references before normalising, duplicates included; 4096 by default.
    pub max_items: usize,
    /// Target and structure records together; 4096 by default.
    pub max_scope_layers: usize,
    /// Snapshots of the current selection, caches, tasks and outside references; 64 by default.
    pub max_live_snapshots: u64,
    /// Charged bytes of all live scope objects; 8 MiB by default.
    pub max_scope_bytes: u64,
    /// Cached earlier selections; 16 by default, zero allowed.
    pub max_cached_snapshots: usize,
    /// Task records, released ones included; 128 by default.
    pub max_task_records: usize,
    /// Size limit of one content page; 256 KiB by default, 1 to 256 KiB allowed.
    pub content_page_bytes: u64,
}

impl SelectionConfig {
    /// The default selection quotas.
    pub open spec fn default_spec() -> SelectionConfig {
        SelectionConfig {
            max_items: 4096usize,
            max_scope_layers: 4096usize,
            max_live_snapshots: 64u64,
            max_scope_bytes: 8388608u64,
            max_cached_snapshots: 16usize,
            max_task_records: 128usize,
            content_page_bytes: 262144u64,
        }
    }
}

impl Default for SelectionConfig {
    fn default() -> (c: Self)
        ensures
            c == SelectionConfig::default_spec(),
    {
        SelectionConfig {
            max_items: 4096,
            max_scope_layers: 4096,
            max_live_snapshots: 64,
            max_scope_bytes: 8 * 1024 * 1024,
            max_cached_snapshots: 16,
            max_task_records: 128,
            content_page_bytes: 256 * 1024,
        }
    }
}

/// Why selection quotas are refused, if they are.
pub open spec fn selection_config_error(c: SelectionConfig) -> Option<Seq<char>> {
    if c.max_items == 0 || c.max_scope_layers == 0 || c.max_live_snapshots == 0
        || c.max_scope_bytes == 0 || c.max_task_records == 0 || !(1024 <= c.content_page_bytes
        <= 256 * 1024) {
        Some(BAD_SELECTION_CONFIG@)
    } else {
        None
    }
}

impl SelectionConfig {
    /// Every quota but the cache must be positive, and a content page holds 1 to 256 KiB.
    pub fn validate(self) -> (r: Result<(), DocumentError>)
        ensures
            match selection_config_error(self) {
                None => r is Ok,
                Some(m) => r matches Err(DocumentError::InvalidConfiguration(msg)) && msg@ == m,
            },
    {
        if self.max_items == 0 || self.max_scope_layers == 0 || self.max_live_snapshots == 0
            || self.max_scope_bytes == 0 || self.max_task_records == 0 || !(1024
            <= self.content_page_bytes && self.content_page_bytes <= 256 * 1024) {
            return Err(DocumentError::InvalidConfiguration(BAD_SELECTION_CONFIG));
        }
        Ok(())
    }
}

/// Snapshot quota held by all strong references; shared references count once.
#[derive(Debug, Clone, Copy, PartialEq, Eq, Structural)]
pub struct SelectionAccounting {
    pub live_snapshots: u64,
    pub scope_bytes: u64,
}

impl Default for SelectionAccounting {
    fn default() -> (a: Self)
        ensures
            a == (SelectionAccounting { live_snapshots: 0, scope_bytes: 0 }),
    {
        SelectionAccounting { live_snapshots: 0, scope_bytes: 0 }
    }
}

/// A content page cursor bound to a session, a snapshot and a source offset.
#[derive(Debug, Clone)]
pub struct ContentCursor {
    session_id: SessionId,
    snapshot_id: SnapshotId,
    record: u32,
    text_start: u32,
}

impl ContentCursor {
    /// The session the cursor belongs to.
    pub closed spec fn session(&self) -> SessionId {
        self.session_id
    }

    /// The snapshot, record index and UTF-16 text offset of the cursor.
    pub closed spec fn position(&self) -> (SnapshotId, u32, u32) {
        (self.snapshot_id, self.record, self.text_start)
    }

    /// Restores a cursor from checked boundary fields; the content page still
    /// checks snapshot, record and UTF-16 offset.
    pub fn from_parts(session_id: SessionId, snapshot_id: SnapshotId, record: u32, text_start: u32) -> (c:
        Self)
        ensures
            c.session() == session_id,
            c.position() == (snapshot_id, record, text_start),
    {
        ContentCursor { session_id, snapshot_id, record, text_start }
    }

    /// Borrows the parts for protocol adapters, without mutable access.
    pub fn parts(&self) -> (p: (&SessionId, SnapshotId, u32, u32))
        ensures
            *p.0 == self.session(),
            (p.1, p.2, p.3) == self.position(),
    {
        (&self.session_id, self.snapshot_id, self.record, self.text_start)
    }
}

} // verus!
