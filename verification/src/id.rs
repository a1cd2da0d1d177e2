//! Snapshot identity: a 128-bit value with a hexadecimal textual form.
//!
//! An identity is assigned once, at snapshot creation, from a random
//! version-4 layout, and is the sole stable name of a snapshot across
//! restarts. The textual form is the usual hyphenated lowercase
//! hexadecimal spelling; parsing also accepts the plain 32-digit form
//! and uppercase digits.

use vstd::prelude::*;

use crate::SnapshotError;
use crate::strutil::chars_of;
use crate::strutil::string_from_chars;

verus! {

/// A 128-bit snapshot identity.
#[derive(Debug, Clone, Copy, PartialEq, Eq, Structural, Hash)]
pub struct SnapshotId {
    pub value: u128,
}

/// The lowercase hexadecimal digit for a value below sixteen.
pub open spec fn hex_char_of(d: int) -> char {
    if d == 0 {
        '0'
    } else if d == 1 {
        '1'
    } else if d == 2 {
        '2'
    } else if d == 3 {
        '3'
    } else if d == 4 {
        '4'
    } else if d == 5 {
        '5'
    } else if d == 6 {
        '6'
    } else if d == 7 {
        '7'
    } else if d == 8 {
        '8'
    } else if d == 9 {
        '9'
    } else if d == 10 {
        'a'
    } else if d == 11 {
        'b'
    } else if d == 12 {
        'c'
    } else if d == 13 {
        'd'
    } else if d == 14 {
        'e'
    } else {
        'f'
    }
}

pub open spec fn is_hex_digit(c: char) -> bool {
    ('0' <= c && c <= '9') || ('a' <= c && c <= 'f') || ('A' <= c && c <= 'F')
}

/// The numeric value of a hexadecimal digit.
pub open spec fn hex_val(c: char) -> int {
    if '0' <= c && c <= '9' {
        c as int - '0' as int
    } else if 'a' <= c && c <= 'f' {
        c as int - 'a' as int + 10
    } else if 'A' <= c && c <= 'F' {
        c as int - 'A' as int + 10
    } else {
        0
    }
}

/// Sixteen raised to `n`.
pub open spec fn pow16(n: nat) -> int
    decreases n,
{
    if n == 0 {
        1
    } else {
        16 * pow16((n - 1) as nat)
    }
}

/// The low `4 * n` bits of `v` as `n` hexadecimal digits, most
/// significant first.
pub open spec fn spec_hex_digits(v: u128, n: nat) -> Seq<char>
    decreases n,
{
    if n == 0 {
        Seq::empty()
    } else {
        spec_hex_digits(v / 16, (n - 1) as nat).push(hex_char_of((v % 16) as int))
    }
}

/// The numeric value of a sequence of hexadecimal digits, most
/// significant first.
pub open spec fn spec_hex_value(s: Seq<char>) -> int
    decreases s.len(),
{
    if s.len() == 0 {
        0
    } else {
        spec_hex_value(s.drop_last()) * 16 + hex_val(s.last())
    }
}

/// The hyphenated textual form of an identity: five groups of 8, 4, 4,
/// 4 and 12 lowercase hexadecimal digits.
pub open spec fn spec_format_id(v: u128) -> Seq<char> {
    let d = spec_hex_digits(v, 32);
    d.subrange(0, 8) + seq!['-'] + d.subrange(8, 12) + seq!['-'] + d.subrange(12, 16) + seq!['-']
        + d.subrange(16, 20) + seq!['-'] + d.subrange(20, 32)
}

/// A 36-character hyphenated identity string.
pub open spec fn valid_hyphenated(s: Seq<char>) -> bool {
    &&& s.len() == 36
    &&& s[8] == '-'
    &&& s[13] == '-'
    &&& s[18] == '-'
    &&& s[23] == '-'
    &&& forall|i: int|
        0 <= i < 36 && i != 8 && i != 13 && i != 18 && i != 23 ==> is_hex_digit(#[trigger] s[i])
}

/// A 32-character plain identity string.
pub open spec fn valid_simple(s: Seq<char>) -> bool {
    &&& s.len() == 32
    &&& forall|i: int| 0 <= i < 32 ==> is_hex_digit(#[trigger] s[i])
}

/// A well-formed identity string, in either accepted form.
pub open spec fn valid_id_str(s: Seq<char>) -> bool {
    valid_hyphenated(s) || valid_simple(s)
}

/// The 32 hexadecimal digits of an identity string, hyphens removed.
pub open spec fn id_str_digits(s: Seq<char>) -> Seq<char> {
    if valid_hyphenated(s) {
        s.subrange(0, 8) + s.subrange(9, 13) + s.subrange(14, 18) + s.subrange(19, 23)
            + s.subrange(24, 36)
    } else {
        s
    }
}

/// The identity value an identity string denotes.
pub open spec fn spec_id_value(s: Seq<char>) -> int {
    spec_hex_value(id_str_digits(s))
}

pub proof fn lemma_hex_val_of_char(d: int)
    requires
        0 <= d < 16,
    ensures
        hex_val(hex_char_of(d)) == d,
        is_hex_digit(hex_char_of(d)),
        'a' <= hex_char_of(d) ==> hex_char_of(d) <= 'f',
        hex_char_of(d) != '-',
{
}

/// Each digit sequence is made of hexadecimal digits only.
pub proof fn lemma_hex_digits_are_digits(v: u128, n: nat)
    ensures
        spec_hex_digits(v, n).len() == n,
        forall|i: int|
            0 <= i < n ==> is_hex_digit(#[trigger] spec_hex_digits(v, n)[i]) && spec_hex_digits(
                v,
                n,
            )[i] != '-',
    decreases n,
{
    if n > 0 {
        lemma_hex_digits_are_digits(v / 16, (n - 1) as nat);
        lemma_hex_val_of_char((v % 16) as int);
    }
}

/// Reading the digits back yields the low bits of the value.
pub proof fn lemma_hex_digits_value(v: u128, n: nat)
    requires
        v < pow16(n),
    ensures
        spec_hex_value(spec_hex_digits(v, n)) == v,
    decreases n,
{
    if n == 0 {
    } else {
        let m = (n - 1) as nat;
        assert(pow16(n) == 16 * pow16(m));
        assert(v / 16 < pow16(m)) by {
            if v / 16 >= pow16(m) {
                assert(v >= 16 * pow16(m)) by (nonlinear_arith)
                    requires
                        v / 16 >= pow16(m),
                ;
            }
        }
        lemma_hex_digits_value(v / 16, m);
        let d = spec_hex_digits(v, n);
        assert(d.drop_last() =~= spec_hex_digits(v / 16, m));
        lemma_hex_val_of_char((v % 16) as int);
    }
}

pub proof fn lemma_pow16_positive(n: nat)
    ensures
        pow16(n) >= 1,
    decreases n,
{
    if n > 0 {
        lemma_pow16_positive((n - 1) as nat);
    }
}

/// The value of a digit sequence is bounded by sixteen to its length.
pub proof fn lemma_hex_value_bound(s: Seq<char>)
    ensures
        0 <= spec_hex_value(s) < pow16(s.len()),
    decreases s.len(),
{
    if s.len() == 0 {
    } else {
        lemma_hex_value_bound(s.drop_last());
        let p = pow16((s.len() - 1) as nat);
        let w = spec_hex_value(s.drop_last());
        assert(w * 16 + hex_val(s.last()) < 16 * p) by (nonlinear_arith)
            requires
                0 <= w < p,
                0 <= hex_val(s.last()) < 16,
        ;
        assert(w * 16 >= 0) by (nonlinear_arith)
            requires
                w >= 0,
        ;
    }
}

pub fn hex_char_exec(d: u8) -> (c: char)
    requires
        d < 16,
    ensures
        c == hex_char_of(d as int),
{
    match d {
        0 => '0',
        1 => '1',
        2 => '2',
        3 => '3',
        4 => '4',
        5 => '5',
        6 => '6',
        7 => '7',
        8 => '8',
        9 => '9',
        10 => 'a',
        11 => 'b',
        12 => 'c',
        13 => 'd',
        14 => 'e',
        _ => 'f',
    }
}

fn is_hex_digit_exec(c: char) -> (r: bool)
    ensures
        r == is_hex_digit(c),
{
    ('0' <= c && c <= '9') || ('a' <= c && c <= 'f') || ('A' <= c && c <= 'F')
}

fn hex_val_exec(c: char) -> (r: u8)
    requires
        is_hex_digit(c),
    ensures
        r as int == hex_val(c),
        r < 16,
{
    if '0' <= c && c <= '9' {
        (c as u8) - ('0' as u8)
    } else if 'a' <= c && c <= 'f' {
        (c as u8) - ('a' as u8) + 10
    } else {
        (c as u8) - ('A' as u8) + 10
    }
}

fn hex_digits_exec(v: u128, n: usize) -> (r: Vec<char>)
    ensures
        r@ == spec_hex_digits(v, n as nat),
    decreases n,
{
    if n == 0 {
        Vec::new()
    } else {
        let mut r = hex_digits_exec(v / 16, n - 1);
        r.push(hex_char_exec((v % 16) as u8));
        r
    }
}

/// Copies `d[from..to]` onto the end of `out`.
fn push_range(out: &mut Vec<char>, d: &Vec<char>, from: usize, to: usize)
    requires
        from <= to <= d@.len(),
    ensures
        final(out)@ == old(out)@ + d@.subrange(from as int, to as int),
{
    let mut i = from;
    while i < to
        invariant
            from <= i <= to <= d@.len(),
            out@ == old(out)@ + d@.subrange(from as int, i as int),
        decreases to - i,
    {
        out.push(d[i]);
        i = i + 1;
        proof {
            assert(out@ =~= old(out)@ + d@.subrange(from as int, i as int));
        }
    }
}

impl SnapshotId {
    /// The hyphenated lowercase textual form of this identity.
    pub fn format(&self) -> (r: String)
        ensures
            r@ == spec_format_id(self.value),
            valid_id_str(r@),
    {
        let d = hex_digits_exec(self.value, 32);
        proof {
            lemma_hex_digits_are_digits(self.value, 32);
        }
        let mut out: Vec<char> = Vec::new();
        push_range(&mut out, &d, 0, 8);
        out.push('-');
        push_range(&mut out, &d, 8, 12);
        out.push('-');
        push_range(&mut out, &d, 12, 16);
        out.push('-');
        push_range(&mut out, &d, 16, 20);
        out.push('-');
        push_range(&mut out, &d, 20, 32);
        proof {
            assert(out@ =~= spec_format_id(self.value));
            lemma_hex_digits_are_digits(self.value, 32);
            assert(valid_hyphenated(out@));
        }
        string_from_chars(&out)
    }
}

/// Parses an identity string, in hyphenated or plain form.
///
/// Succeeds exactly on well-formed identity strings; any other input is
/// a malformed identity.
pub fn parse_id(s: &str) -> (r: Result<SnapshotId, SnapshotError>)
    ensures
        r is Ok <==> valid_id_str(s@),
        r is Ok ==> r.unwrap().value as int == spec_id_value(s@),
        r is Err ==> r == Err::<SnapshotId, SnapshotError>(SnapshotError::InvalidIdentity),
{
    let v = chars_of(s);
    if v.len() == 36 {
        if !(v[8] == '-' && v[13] == '-' && v[18] == '-' && v[23] == '-') {
            return Err(SnapshotError::InvalidIdentity);
        }
        let mut i: usize = 0;
        while i < 36
            invariant
                i <= 36,
                v@.len() == 36,
                v@ == s@,
                forall|k: int|
                    0 <= k < i && k != 8 && k != 13 && k != 18 && k != 23 ==> is_hex_digit(
                        #[trigger] v@[k],
                    ),
            decreases 36 - i,
        {
            if i != 8 && i != 13 && i != 18 && i != 23 {
                if !is_hex_digit_exec(v[i]) {
                    return Err(SnapshotError::InvalidIdentity);
                }
            }
            i = i + 1;
        }
        let mut hex: Vec<char> = Vec::new();
        push_range(&mut hex, &v, 0, 8);
        push_range(&mut hex, &v, 9, 13);
        push_range(&mut hex, &v, 14, 18);
        push_range(&mut hex, &v, 19, 23);
        push_range(&mut hex, &v, 24, 36);
        proof {
            assert(valid_hyphenated(s@));
            assert(hex@ =~= id_str_digits(s@));
        }
        Ok(SnapshotId { value: hex_chars_to_value(&hex) })
    } else if v.len() == 32 {
        let mut i: usize = 0;
        while i < 32
            invariant
                i <= 32,
                v@.len() == 32,
                v@ == s@,
                forall|k: int| 0 <= k < i ==> is_hex_digit(#[trigger] v@[k]),
            decreases 32 - i,
        {
            if !is_hex_digit_exec(v[i]) {
                return Err(SnapshotError::InvalidIdentity);
            }
            i = i + 1;
        }
        proof {
            assert(valid_simple(s@));
            assert(!valid_hyphenated(s@));
            assert(v@ =~= id_str_digits(s@));
        }
        Ok(SnapshotId { value: hex_chars_to_value(&v) })
    } else {
        Err(SnapshotError::InvalidIdentity)
    }
}

/// The value of exactly 32 hexadecimal digits, most significant first.
fn hex_chars_to_value(hex: &Vec<char>) -> (r: u128)
    requires
        hex@.len() == 32,
        forall|k: int| 0 <= k < 32 ==> is_hex_digit(#[trigger] hex@[k]),
    ensures
        r as int == spec_hex_value(hex@),
{
    let mut acc: u128 = 0;
    let mut i: usize = 0;
    proof {
        lemma_pow16_32();
    }
    while i < 32
        invariant
            i <= 32,
            hex@.len() == 32,
            forall|k: int| 0 <= k < 32 ==> is_hex_digit(#[trigger] hex@[k]),
            acc as int == spec_hex_value(hex@.subrange(0, i as int)),
            pow16(32) == 0x1_0000_0000_0000_0000_0000_0000_0000_0000,
        decreases 32 - i,
    {
        let d = hex_val_exec(hex[i]);
        proof {
            let pre = hex@.subrange(0, i as int);
            let cur = hex@.subrange(0, i as int + 1);
            assert(cur.drop_last() =~= pre);
            assert(cur.last() == hex@[i as int]);
            lemma_hex_value_bound(pre);
            lemma_pow16_mono(i as nat, 31);
            assert(acc as int * 16 + hex_val(hex@[i as int]) < pow16(32)) by (nonlinear_arith)
                requires
                    0 <= acc as int,
                    (acc as int) < pow16(31),
                    0 <= hex_val(hex@[i as int]),
                    hex_val(hex@[i as int]) < 16,
                    pow16(32) == 16 * pow16(31),
            ;
            assert(acc as int * 16 >= 0) by (nonlinear_arith)
                requires
                    acc as int >= 0,
            ;
        }
        acc = acc * 16 + (d as u128);
        i = i + 1;
    }
    proof {
        assert(hex@.subrange(0, 32) =~= hex@);
    }
    acc
}

pub proof fn lemma_pow16_32()
    ensures
        pow16(32) == 0x1_0000_0000_0000_0000_0000_0000_0000_0000,
{
    reveal_with_fuel(pow16, 33);
}

pub proof fn lemma_pow16_mono(a: nat, b: nat)
    requires
        a <= b,
    ensures
        pow16(a) <= pow16(b),
    decreases b,
{
    if a < b {
        lemma_pow16_mono(a, (b - 1) as nat);
        lemma_pow16_positive((b - 1) as nat);
    }
}

/// Formatting an identity and parsing the result yields it back.
///
/// The identity scheme loses nothing in its textual form: a handle
/// printed for a caller resolves to the same snapshot it named.
pub proof fn lemma_format_parse_round_trip(v: u128)
    ensures
        valid_id_str(spec_format_id(v)),
        spec_id_value(spec_format_id(v)) == v,
{
    let d = spec_hex_digits(v, 32);
    lemma_hex_digits_are_digits(v, 32);
    let s = spec_format_id(v);
    assert(valid_hyphenated(s));
    assert(id_str_digits(s) =~= d);
    lemma_pow16_32();
    lemma_hex_digits_value(v, 32);
}

/// Relies on `uuid::Uuid::new_v4`: a freshly generated random identifier
/// with the version-4 and variant bits set, read back as its 128-bit
/// big-endian value with `Uuid::as_u128`. Nothing more is promised of a
/// random value than its fixed layout bits.
#[verifier::external_body]
fn random_v4_bits() -> (r: u128)
    ensures
        r & 0xf000_0000_0000_0000_0000 == 0x4000_0000_0000_0000_0000,
        r & 0xc000_0000_0000_0000 == 0x8000_0000_0000_0000,
{
    uuid::Uuid::new_v4().as_u128()
}

/// The fixed layout bits of a freshly assigned identity.
pub open spec fn has_v4_layout(v: u128) -> bool {
    v & 0xf000_0000_0000_0000_0000 == 0x4000_0000_0000_0000_0000 && v & 0xc000_0000_0000_0000
        == 0x8000_0000_0000_0000
}

impl SnapshotId {
    /// Assigns a fresh random identity.
    pub fn fresh() -> (r: SnapshotId)
        ensures
            has_v4_layout(r.value),
    {
        SnapshotId { value: random_v4_bits() }
    }
}

} // verus!
