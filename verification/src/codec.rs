//! The persisted form of a metadata record.
//!
//! A record is kept as a pretty-printed JSON object with the fields in
//! a fixed order and two-space indentation; unset labels are omitted.
//! The decoder accepts exactly that canonical text, in both
//! directions: whenever it succeeds, the input is, character for
//! character, the encoding of the record it returns; and whenever the
//! input is the canonical encoding of a well-formed record, it
//! succeeds. Anything else is surfaced as corrupt metadata, never
//! silently repaired.

use vstd::prelude::*;

use crate::SnapshotError;
use crate::id::hex_char_of;
use crate::id::hex_val;
use crate::id::hex_char_exec;
use crate::id::SnapshotId;
use crate::id::lemma_hex_val_of_char;
use crate::id::spec_format_id;
use crate::id::parse_id;
use crate::metadata::SnapshotMetadata;
use crate::metadata::is_blank;
use crate::metadata::spec_is_blank;
use crate::strutil::chars_of;
use crate::timefmt::is_rfc3339;
use crate::timefmt::is_rfc3339_str;

verus! {

broadcast use vstd::std_specs::vec::axiom_spec_len, vstd::utf8::char_is_scalar;

/// How one character appears inside a JSON string: the quote and the
/// backslash escaped, the named control characters by their short
/// escapes, any other control character by a `\u00` escape, everything
/// else verbatim.
pub open spec fn esc_char(c: char) -> Seq<char> {
    if c == '"' {
        seq!['\\', '"']
    } else if c == '\\' {
        seq!['\\', '\\']
    } else if c == '\u{8}' {
        seq!['\\', 'b']
    } else if c == '\t' {
        seq!['\\', 't']
    } else if c == '\n' {
        seq!['\\', 'n']
    } else if c == '\u{c}' {
        seq!['\\', 'f']
    } else if c == '\r' {
        seq!['\\', 'r']
    } else if (c as int) < 0x20 {
        seq!['\\', 'u', '0', '0', hex_char_of(c as int / 16), hex_char_of(c as int % 16)]
    } else {
        seq![c]
    }
}

/// A string's characters, escaped for a JSON string.
pub open spec fn spec_escape(s: Seq<char>) -> Seq<char>
    decreases s.len(),
{
    if s.len() == 0 {
        Seq::empty()
    } else {
        esc_char(s[0]) + spec_escape(s.drop_first())
    }
}

/// A JSON string: the escaped characters between quotes.
pub open spec fn spec_jstr(s: Seq<char>) -> Seq<char> {
    seq!['"'] + spec_escape(s) + seq!['"']
}

pub proof fn lemma_escape_concat(a: Seq<char>, b: Seq<char>)
    ensures
        spec_escape(a + b) == spec_escape(a) + spec_escape(b),
    decreases a.len(),
{
    if a.len() == 0 {
        assert(a + b =~= b);
        assert(spec_escape(a) + spec_escape(b) =~= spec_escape(b));
    } else {
        lemma_escape_concat(a.drop_first(), b);
        assert((a + b).drop_first() =~= a.drop_first() + b);
        assert(spec_escape(a + b) =~= spec_escape(a) + spec_escape(b));
    }
}

pub proof fn lemma_escape_push(a: Seq<char>, c: char)
    ensures
        spec_escape(a.push(c)) == spec_escape(a) + esc_char(c),
{
    lemma_escape_concat(a, seq![c]);
    assert(a.push(c) =~= a + seq![c]);
    reveal_with_fuel(spec_escape, 2);
    assert(seq![c].drop_first() =~= Seq::<char>::empty());
    assert(spec_escape(seq![c]) =~= esc_char(c));
}

/// The first `i` items of the subvolume array, each on its own
/// indented line, separated by commas; the last item overall takes no
/// separator.
pub open spec fn spec_arr_items_up_to(v: Seq<Seq<char>>, i: int) -> Seq<char>
    decreases i,
{
    if i <= 0 {
        Seq::empty()
    } else {
        spec_arr_items_up_to(v, i - 1) + "    "@ + spec_jstr(v[i - 1]) + (if i < v.len() {
            ",\n"@
        } else {
            Seq::empty()
        })
    }
}

/// The subvolume array: `[]` when empty, otherwise one item per line.
pub open spec fn spec_arr(v: Seq<Seq<char>>) -> Seq<char> {
    if v.len() == 0 {
        "[]"@
    } else {
        "[\n"@ + spec_arr_items_up_to(v, v.len() as int) + "\n  ]"@
    }
}

/// The optional label line for `name`.
pub open spec fn spec_name_part(m: &SnapshotMetadata) -> Seq<char> {
    match m.name {
        Some(n) => "  \"name\": "@ + spec_jstr(n@) + ",\n"@,
        None => Seq::empty(),
    }
}

/// The optional label line for `description`.
pub open spec fn spec_desc_part(m: &SnapshotMetadata) -> Seq<char> {
    match m.description {
        Some(d) => "  \"description\": "@ + spec_jstr(d@) + ",\n"@,
        None => Seq::empty(),
    }
}

/// The canonical persisted text of a record.
pub open spec fn spec_encode(m: &SnapshotMetadata) -> Seq<char> {
    "{\n  \"uuid\": "@ + spec_jstr(spec_format_id(m.uuid.value)) + ",\n"@ + spec_name_part(m)
        + spec_desc_part(m) + "  \"creation_time\": "@ + spec_jstr(m.creation_time@) + ",\n"@
        + "  \"subvolumes\": "@ + spec_arr(m.subvolumes.deep_view()) + "\n}"@
}

/// How one character is escaped, as executable text.
fn esc_char_exec(c: char) -> (r: Vec<char>)
    ensures
        r@ == esc_char(c),
{
    proof {
        vstd::utf8::char_is_scalar(c);
    }
    let mut r: Vec<char> = Vec::new();
    if c == '"' {
        r.push('\\');
        r.push('"');
    } else if c == '\\' {
        r.push('\\');
        r.push('\\');
    } else if c == '\u{8}' {
        r.push('\\');
        r.push('b');
    } else if c == '\t' {
        r.push('\\');
        r.push('t');
    } else if c == '\n' {
        r.push('\\');
        r.push('n');
    } else if c == '\u{c}' {
        r.push('\\');
        r.push('f');
    } else if c == '\r' {
        r.push('\\');
        r.push('r');
    } else if '\u{20}' > c {
        let code = c as u32;
        proof {
            assert(code < 0x20);
        }
        r.push('\\');
        r.push('u');
        r.push('0');
        r.push('0');
        r.push(hex_char_exec((code / 16) as u8));
        r.push(hex_char_exec((code % 16) as u8));
    } else {
        r.push(c);
    }
    proof {
        assert(r@ =~= esc_char(c));
    }
    r
}

/// Appends the escaped characters of `s` to `out`.
fn escape_into(out: &mut String, s: &str)
    ensures
        final(out)@ == old(out)@ + spec_escape(s@),
{
    let v = chars_of(s);
    let mut i: usize = 0;
    while i < v.len()
        invariant
            i <= v@.len(),
            v@ == s@,
            out@ == old(out)@ + spec_escape(v@.subrange(0, i as int)),
        decreases v@.len() - i,
    {
        let ghost prefix = v@.subrange(0, i as int);
        let c = v[i];
        let piece = esc_char_exec(c);
        let mut k: usize = 0;
        while k < piece.len()
            invariant
                k <= piece@.len(),
                out@ == old(out)@ + spec_escape(prefix) + piece@.subrange(0, k as int),
                piece@ == esc_char(c),
                prefix == v@.subrange(0, i as int),
                i < v@.len(),
                out@ == old(out)@ + spec_escape(v@.subrange(0, i as int)) + piece@.subrange(
                    0,
                    k as int,
                ),
            decreases piece@.len() - k,
        {
            out.push(piece[k]);
            k = k + 1;
            proof {
                assert(out@ =~= old(out)@ + spec_escape(prefix) + piece@.subrange(0, k as int));
            }
        }
        proof {
            assert(piece@.subrange(0, piece@.len() as int) =~= piece@);
        }
        i = i + 1;
        proof {
            lemma_escape_push(prefix, c);
            assert(v@.subrange(0, i as int) =~= prefix.push(c));
            assert(out@ =~= old(out)@ + spec_escape(v@.subrange(0, i as int)));
        }
    }
    proof {
        assert(v@.subrange(0, v@.len() as int) =~= v@);
    }
}

/// Appends the JSON string form of `s` to `out`.
fn jstr_into(out: &mut String, s: &str)
    ensures
        final(out)@ == old(out)@ + spec_jstr(s@),
{
    out.push('"');
    escape_into(out, s);
    out.push('"');
    proof {
        assert(out@ =~= old(out)@ + spec_jstr(s@));
    }
}

/// Renders a record in its canonical persisted form.
pub fn encode_metadata(m: &SnapshotMetadata) -> (r: String)
    ensures
        r@ == spec_encode(m),
{
    let mut out = String::from_str("{\n  \"uuid\": ");
    let idtext = m.uuid.format();
    jstr_into(&mut out, idtext.as_str());
    out.append(",\n");
    match &m.name {
        Some(n) => {
            out.append("  \"name\": ");
            jstr_into(&mut out, n.as_str());
            out.append(",\n");
        },
        None => {},
    }
    match &m.description {
        Some(d) => {
            out.append("  \"description\": ");
            jstr_into(&mut out, d.as_str());
            out.append(",\n");
        },
        None => {},
    }
    out.append("  \"creation_time\": ");
    jstr_into(&mut out, m.creation_time.as_str());
    out.append(",\n");
    out.append("  \"subvolumes\": ");
    if m.subvolumes.len() == 0 {
        out.append("[]");
        proof {
            assert(m.subvolumes.deep_view().len() == 0);
        }
    } else {
        out.append("[\n");
        let ghost subs = m.subvolumes.deep_view();
        let ghost before = out@;
        let mut i: usize = 0;
        while i < m.subvolumes.len()
            invariant
                i <= m.subvolumes@.len(),
                subs == m.subvolumes.deep_view(),
                subs.len() == m.subvolumes@.len(),
                m.subvolumes@.len() > 0,
                out@ == before + spec_arr_items_up_to(subs, i as int),
            decreases m.subvolumes@.len() - i,
        {
            out.append("    ");
            jstr_into(&mut out, m.subvolumes[i].as_str());
            if i + 1 < m.subvolumes.len() {
                out.append(",\n");
            }
            i = i + 1;
            proof {
                assert(subs[i - 1] == m.subvolumes@[i - 1]@);
                assert(out@ =~= before + spec_arr_items_up_to(subs, i as int));
            }
        }
        out.append("\n  ]");
    }
    out.append("\n}");
    proof {
        assert(out@ =~= spec_encode(m));
    }
    out
}

/// A lowercase hexadecimal digit, the only spelling the canonical
/// `\u00` escape uses.
pub open spec fn is_lower_hex(c: char) -> bool {
    ('0' <= c && c <= '9') || ('a' <= c && c <= 'f')
}

fn is_lower_hex_exec(c: char) -> (r: bool)
    ensures
        r == is_lower_hex(c),
{
    ('0' <= c && c <= '9') || ('a' <= c && c <= 'f')
}

fn lower_hex_val(c: char) -> (r: u32)
    requires
        is_lower_hex(c),
    ensures
        r as int == hex_val(c),
        r < 16,
{
    if '0' <= c && c <= '9' {
        (c as u32) - ('0' as u32)
    } else {
        (c as u32) - ('a' as u32) + 10
    }
}

proof fn lemma_canon_hex(c: char)
    requires
        is_lower_hex(c),
    ensures
        hex_char_of(hex_val(c)) == c,
{
}

/// The shapes an escape can take: one, two or six characters, decided
/// by its first two; it never starts with a quote; a one-character
/// escape is the character itself, verbatim.
proof fn lemma_esc_char_shape(c: char)
    ensures
        esc_char(c).len() == 1 || esc_char(c).len() == 2 || esc_char(c).len() == 6,
        esc_char(c)[0] != '"',
        (esc_char(c)[0] == '\\') <==> esc_char(c).len() >= 2,
        esc_char(c).len() == 1 ==> esc_char(c)[0] == c && c != '"' && c != '\\' && !((c as int)
            < 0x20),
        esc_char(c).len() >= 2 ==> ((esc_char(c)[1] == 'u') <==> esc_char(c).len() == 6),
        esc_char(c).len() == 2 ==> (esc_char(c)[1] == '"' ==> c == '"') && (esc_char(c)[1] == '\\'
            ==> c == '\\') && (esc_char(c)[1] == 'b' ==> c == '\u{8}') && (esc_char(c)[1] == 't'
            ==> c == '\t') && (esc_char(c)[1] == 'n' ==> c == '\n') && (esc_char(c)[1] == 'f' ==> c
            == '\u{c}') && (esc_char(c)[1] == 'r' ==> c == '\r') && (esc_char(c)[1] == '"'
            || esc_char(c)[1] == '\\' || esc_char(c)[1] == 'b' || esc_char(c)[1] == 't'
            || esc_char(c)[1] == 'n' || esc_char(c)[1] == 'f' || esc_char(c)[1] == 'r'),
        esc_char(c).len() == 6 ==> esc_char(c)[2] == '0' && esc_char(c)[3] == '0' && is_lower_hex(
            esc_char(c)[4],
        ) && is_lower_hex(esc_char(c)[5]) && hex_val(esc_char(c)[4]) * 16 + hex_val(esc_char(c)[5])
            == c as int && (c as int) < 0x20 && !(c as int == 8 || c as int == 9 || c as int == 10
            || c as int == 12 || c as int == 13),
{
    if c != '"' && c != '\\' && c != '\u{8}' && c != '\t' && c != '\n' && c != '\u{c}' && c != '\r'
        && (c as int) < 0x20 {
        let d1 = c as int / 16;
        let d2 = c as int % 16;
        lemma_hex_val_of_char(d1);
        lemma_hex_val_of_char(d2);
        assert(is_lower_hex(hex_char_of(d1)));
        assert(is_lower_hex(hex_char_of(d2)));
        assert(d1 * 16 + d2 == c as int);
    }
}

/// No two characters share an escape.
proof fn lemma_esc_char_injective(a: char, b: char)
    requires
        esc_char(a) == esc_char(b),
    ensures
        a == b,
{
    lemma_esc_char_shape(a);
    lemma_esc_char_shape(b);
    let e = esc_char(a);
    if e.len() == 1 {
    } else if e.len() == 2 {
    } else {
        assert(a as int == hex_val(e[4]) * 16 + hex_val(e[5]));
        assert(b as int == hex_val(e[4]) * 16 + hex_val(e[5]));
    }
}

/// Where a parser that has read back `out` stands inside a JSON string
/// carrying `x`: at the closing quote when `out` is all of `x`, else
/// at the start of the escape of the next character.
proof fn lemma_jstr_hypothesis(v: Seq<char>, i: int, j: int, out: Seq<char>, x: Seq<char>, M: int)
    requires
        0 <= i,
        i < j <= v.len(),
        v.subrange(i + 1, j) == spec_escape(out),
        i < M <= v.len(),
        v.subrange(i, M) == spec_jstr(x),
        out.len() <= x.len(),
        out == x.take(out.len() as int),
    ensures
        j <= M - 1,
        out.len() == x.len() ==> j == M - 1 && v[j] == '"',
        out.len() < x.len() ==> j + esc_char(x[out.len() as int]).len() <= M - 1 && v.subrange(
            j,
            j + esc_char(x[out.len() as int]).len() as int,
        ) == esc_char(x[out.len() as int]),
{
    let k = out.len() as int;
    assert(x =~= x.take(k) + x.skip(k));
    lemma_escape_concat(x.take(k), x.skip(k));
    assert(spec_escape(x) == spec_escape(out) + spec_escape(x.skip(k)));
    assert(M - i == spec_jstr(x).len());
    assert(v.subrange(i + 1, M - 1) =~= spec_escape(x)) by {
        assert forall|t: int| 0 <= t < M - 2 - i implies v.subrange(i + 1, M - 1)[t]
            == spec_escape(x)[t] by {
            assert(v.subrange(i, M)[t + 1] == spec_jstr(x)[t + 1]);
        }
    }
    assert(j - (i + 1) == spec_escape(out).len());
    assert(spec_escape(out).len() <= spec_escape(x).len());
    if k == x.len() {
        assert(x.skip(k) =~= Seq::<char>::empty());
        assert(spec_escape(x.skip(k)) =~= Seq::<char>::empty());
        assert(j == M - 1);
        assert(v.subrange(i, M)[M - 1 - i] == spec_jstr(x)[M - 1 - i]);
        assert(v[M - 1] == '"');
    } else {
        assert(x.skip(k).len() > 0);
        assert(x.skip(k)[0] == x[k]);
        let u = esc_char(x[k]);
        assert(spec_escape(x.skip(k)) == u + spec_escape(x.skip(k).drop_first()));
        assert(j + u.len() <= M - 1);
        assert(v.subrange(j, j + u.len() as int) =~= u) by {
            assert forall|t: int| 0 <= t < u.len() implies v.subrange(j, j + u.len() as int)[t]
                == u[t] by {
                assert(v.subrange(i + 1, M - 1)[j - i - 1 + t] == spec_escape(x)[j - i - 1 + t]);
            }
        }
    }
}

/// Consumes `lit` at position `i`: succeeds exactly when the text
/// carries that literal there.
fn expect_lit(v: &Vec<char>, i: usize, lit: &str) -> (r: Option<usize>)
    requires
        i <= v@.len(),
    ensures
        r is Some ==> r.unwrap() as int == i + lit@.len() && i + lit@.len() <= v@.len()
            && v@.subrange(i as int, i + lit@.len()) == lit@,
        r is None ==> !(i + lit@.len() <= v@.len() && v@.subrange(i as int, i + lit@.len())
            == lit@),
{
    let l = chars_of(lit);
    let n = v.len();
    if n - i < l.len() {
        return None;
    }
    let mut k: usize = 0;
    while k < l.len()
        invariant
            k <= l@.len(),
            l@ == lit@,
            i + l@.len() <= v@.len(),
            v@.len() <= usize::MAX,
            forall|j: int| 0 <= j < k ==> v@[i + j] == l@[j],
        decreases l@.len() - k,
    {
        if v[i + k] != l[k] {
            proof {
                let sub = v@.subrange(i as int, i + lit@.len());
                if sub == lit@ {
                    assert(sub[k as int] == v@[i + k]);
                }
            }
            return None;
        }
        k = k + 1;
    }
    proof {
        assert(v@.subrange(i as int, i + lit@.len()) =~= lit@);
    }
    Some(i + l.len())
}

/// Parses a JSON string at position `i`, accepting only canonical
/// escapes. On success the consumed text is, character for character,
/// the canonical JSON string form of the returned value; and whenever
/// the text at `i` is the canonical JSON string form of some value,
/// the parse succeeds and returns exactly that value.
#[verifier::rlimit(100)]
fn parse_jstr(v: &Vec<char>, i: usize) -> (r: Option<(String, usize)>)
    requires
        i <= v@.len(),
    ensures
        r is Some ==> i < r.unwrap().1 <= v@.len() && v@.subrange(i as int, r.unwrap().1 as int)
            == spec_jstr(r.unwrap().0@),
        forall|x: Seq<char>, M: int|
            #![trigger v@.subrange(i as int, M), spec_jstr(x)]
            (i as int) < M <= v@.len() && v@.subrange(i as int, M) == spec_jstr(x) ==> (r is Some
                && r.unwrap().1 as int == M && r.unwrap().0@ == x),
{
    let n = v.len();
    if i >= n || v[i] != '"' {
        proof {
            assert forall|x: Seq<char>, M: int|
                #![trigger v@.subrange(i as int, M), spec_jstr(x)]
                (i as int) < M <= n && v@.subrange(i as int, M) == spec_jstr(x) implies false by {
                assert(v@.subrange(i as int, M)[0] == spec_jstr(x)[0]);
            }
        }
        return None;
    }
    let mut j: usize = i + 1;
    let mut out = String::new();
    proof {
        assert forall|x: Seq<char>, M: int|
            #![trigger v@.subrange(i as int, M), spec_jstr(x)]
            (i as int) < M <= n && v@.subrange(i as int, M) == spec_jstr(x) implies out@.len()
            <= x.len() && out@ == x.take(out@.len() as int) by {
            assert(x.take(0) =~= Seq::<char>::empty());
        }
    }
    while j < n
        invariant
            i < j <= n,
            n == v@.len(),
            v@[i as int] == '"',
            v@.subrange(i as int + 1, j as int) == spec_escape(out@),
            forall|x: Seq<char>, M: int|
                #![trigger v@.subrange(i as int, M), spec_jstr(x)]
                (i as int) < M <= n && v@.subrange(i as int, M) == spec_jstr(x) ==> out@.len()
                    <= x.len() && out@ == x.take(out@.len() as int),
        decreases n - j,
    {
        let c = v[j];
        let ghost pre = out@;
        let ghost j0 = j;
        if c == '"' {
            proof {
                assert(v@.subrange(i as int, j as int + 1) =~= seq!['"'] + spec_escape(out@)
                    + seq!['"']);
                assert forall|x: Seq<char>, M: int|
                    #![trigger v@.subrange(i as int, M), spec_jstr(x)]
                    (i as int) < M <= n && v@.subrange(i as int, M) == spec_jstr(x) implies j + 1
                    == M && out@ == x by {
                    lemma_jstr_hypothesis(v@, i as int, j as int, out@, x, M);
                    if out@.len() < x.len() {
                        let u = esc_char(x[out@.len() as int]);
                        lemma_esc_char_shape(x[out@.len() as int]);
                        assert(v@.subrange(j as int, j + u.len() as int)[0] == u[0]);
                    }
                    assert(x.take(x.len() as int) =~= x);
                }
            }
            return Some((out, j + 1));
        } else if c == '\\' {
            if n - j < 2 {
                proof {
                    assert forall|x: Seq<char>, M: int|
                        #![trigger v@.subrange(i as int, M), spec_jstr(x)]
                        (i as int) < M <= n && v@.subrange(i as int, M) == spec_jstr(x)
                        implies false by {
                        lemma_jstr_hypothesis(v@, i as int, j as int, out@, x, M);
                        if out@.len() == x.len() {
                        } else {
                            let u = esc_char(x[out@.len() as int]);
                            lemma_esc_char_shape(x[out@.len() as int]);
                            assert(v@.subrange(j as int, j + u.len() as int)[0] == u[0]);
                        }
                    }
                }
                return None;
            }
            let e = v[j + 1];
            if e == '"' {
                out.push('"');
                j = j + 2;
            } else if e == '\\' {
                out.push('\\');
                j = j + 2;
            } else if e == 'b' {
                out.push('\u{8}');
                j = j + 2;
            } else if e == 't' {
                out.push('\t');
                j = j + 2;
            } else if e == 'n' {
                out.push('\n');
                j = j + 2;
            } else if e == 'f' {
                out.push('\u{c}');
                j = j + 2;
            } else if e == 'r' {
                out.push('\r');
                j = j + 2;
            } else if e == 'u' {
                let ghost ok = j + 6 <= n && v@[j as int + 2] == '0' && v@[j as int + 3] == '0'
                    && is_lower_hex(v@[j as int + 4]) && is_lower_hex(v@[j as int + 5]) && hex_val(
                    v@[j as int + 4],
                ) * 16 + hex_val(v@[j as int + 5]) < 0x20 && !{
                    let w = hex_val(v@[j as int + 4]) * 16 + hex_val(v@[j as int + 5]);
                    w == 8 || w == 9 || w == 10 || w == 12 || w == 13
                };
                proof {
                    if !ok {
                        assert forall|x: Seq<char>, M: int|
                            #![trigger v@.subrange(i as int, M), spec_jstr(x)]
                            (i as int) < M <= n && v@.subrange(i as int, M) == spec_jstr(x)
                            implies false by {
                            lemma_jstr_hypothesis(v@, i as int, j as int, out@, x, M);
                            if out@.len() == x.len() {
                            } else {
                                let xk = x[out@.len() as int];
                                let u = esc_char(xk);
                                lemma_esc_char_shape(xk);
                                assert(v@.subrange(j as int, j + u.len() as int)[0] == u[0]);
                                assert(u[0] == '\\' && u.len() >= 2);
                                assert(v@.subrange(j as int, j + u.len() as int)[1] == u[1]);
                                assert(u[1] == 'u');
                                assert(u.len() == 6);
                                assert(v@.subrange(j as int, j as int + 6) =~= u);
                                assert(v@[j as int + 2] == u[2] && v@[j as int + 3] == u[3]);
                                assert(v@[j as int + 4] == u[4] && v@[j as int + 5] == u[5]);
                            }
                        }
                    }
                }
                if n - j < 6 {
                    return None;
                }
                if v[j + 2] != '0' || v[j + 3] != '0' {
                    return None;
                }
                let d1 = v[j + 4];
                let d2 = v[j + 5];
                if !is_lower_hex_exec(d1) || !is_lower_hex_exec(d2) {
                    return None;
                }
                let code = lower_hex_val(d1) * 16 + lower_hex_val(d2);
                if code >= 0x20 {
                    return None;
                }
                if code == 8 || code == 9 || code == 10 || code == 12 || code == 13 {
                    return None;
                }
                let c2 = (code as u8) as char;
                proof {
                    lemma_canon_hex(d1);
                    lemma_canon_hex(d2);
                    assert(code as int / 16 == hex_val(d1) && code as int % 16 == hex_val(d2))
                        by (nonlinear_arith)
                        requires
                            code as int == hex_val(d1) * 16 + hex_val(d2),
                            0 <= hex_val(d1) < 16,
                            0 <= hex_val(d2) < 16,
                    ;
                    assert(c2 as int == code as int);
                    assert(esc_char(c2) =~= seq!['\\', 'u', '0', '0', d1, d2]);
                }
                out.push(c2);
                j = j + 6;
            } else {
                proof {
                    assert forall|x: Seq<char>, M: int|
                        #![trigger v@.subrange(i as int, M), spec_jstr(x)]
                        (i as int) < M <= n && v@.subrange(i as int, M) == spec_jstr(x)
                        implies false by {
                        lemma_jstr_hypothesis(v@, i as int, j as int, out@, x, M);
                        if out@.len() == x.len() {
                        } else {
                            let xk = x[out@.len() as int];
                            let u = esc_char(xk);
                            lemma_esc_char_shape(xk);
                            assert(v@.subrange(j as int, j + u.len() as int)[0] == u[0]);
                            assert(u[0] == '\\' && u.len() >= 2);
                            assert(v@.subrange(j as int, j + u.len() as int)[1] == u[1]);
                        }
                    }
                }
                return None;
            }
        } else if '\u{20}' > c {
            proof {
                assert forall|x: Seq<char>, M: int|
                    #![trigger v@.subrange(i as int, M), spec_jstr(x)]
                    (i as int) < M <= n && v@.subrange(i as int, M) == spec_jstr(x)
                    implies false by {
                    lemma_jstr_hypothesis(v@, i as int, j as int, out@, x, M);
                    if out@.len() == x.len() {
                    } else {
                        let xk = x[out@.len() as int];
                        let u = esc_char(xk);
                        lemma_esc_char_shape(xk);
                        assert(v@.subrange(j as int, j + u.len() as int)[0] == u[0]);
                        assert(u.len() == 1);
                    }
                }
            }
            return None;
        } else {
            out.push(c);
            j = j + 1;
        }
        proof {
            let c2 = out@.last();
            lemma_escape_push(pre, c2);
            assert(out@ =~= pre.push(c2));
            assert(v@.subrange(j0 as int, j as int) =~= esc_char(c2));
            assert(v@.subrange(i as int + 1, j as int) =~= v@.subrange(i as int + 1, j0 as int)
                + v@.subrange(j0 as int, j as int));
            assert forall|x: Seq<char>, M: int|
                #![trigger v@.subrange(i as int, M), spec_jstr(x)]
                (i as int) < M <= n && v@.subrange(i as int, M) == spec_jstr(x) implies out@.len()
                <= x.len() && out@ == x.take(out@.len() as int) by {
                lemma_jstr_hypothesis(v@, i as int, j0 as int, pre, x, M);
                lemma_esc_char_shape(c2);
                assert(v@[j0 as int] == esc_char(c2)[0]) by {
                    assert(v@.subrange(j0 as int, j as int)[0] == esc_char(c2)[0]);
                }
                if pre.len() == x.len() {
                    assert(v@[j0 as int] == '"');
                    assert(false);
                } else {
                    let k = pre.len() as int;
                    let xk = x[k];
                    let u = esc_char(xk);
                    lemma_esc_char_shape(xk);
                    assert(v@.subrange(j0 as int, j0 + u.len() as int) == u);
                    assert(v@[j0 as int] == u[0]) by {
                        assert(v@.subrange(j0 as int, j0 + u.len() as int)[0] == u[0]);
                    }
                    if esc_char(c2).len() == 1 {
                        assert(esc_char(c2)[0] != '\\');
                        assert(u.len() == 1);
                    } else {
                        assert(v@[j0 as int + 1] == esc_char(c2)[1]) by {
                            assert(v@.subrange(j0 as int, j as int)[1] == esc_char(c2)[1]);
                        }
                        assert(u.len() >= 2);
                        assert(u[1] == v@[j0 as int + 1]) by {
                            assert(v@.subrange(j0 as int, j0 + u.len() as int)[1] == u[1]);
                        }
                        if esc_char(c2).len() == 2 {
                            assert(u.len() == 2);
                        } else {
                            assert(u.len() == 6);
                        }
                    }
                    assert(u =~= esc_char(c2)) by {
                        assert forall|t: int| 0 <= t < u.len() implies u[t] == esc_char(c2)[t] by {
                            assert(v@.subrange(j0 as int, j0 + u.len() as int)[t] == u[t]);
                            assert(v@.subrange(j0 as int, j as int)[t] == esc_char(c2)[t]);
                        }
                    }
                    lemma_esc_char_injective(xk, c2);
                    assert(out@ =~= x.take(k + 1));
                }
            }
        }
    }
    proof {
        assert forall|x: Seq<char>, M: int|
            #![trigger v@.subrange(i as int, M), spec_jstr(x)]
            (i as int) < M <= n && v@.subrange(i as int, M) == spec_jstr(x) implies false by {
            lemma_jstr_hypothesis(v@, i as int, j as int, out@, x, M);
        }
    }
    None
}

/// The first `k` items rendered with a separator after every one of
/// them: the shape of the consumed text while more items follow.
pub open spec fn spec_items_with_sep(v: Seq<Seq<char>>, k: int) -> Seq<char>
    decreases k,
{
    if k <= 0 {
        Seq::empty()
    } else {
        spec_items_with_sep(v, k - 1) + "    "@ + spec_jstr(v[k - 1]) + ",\n"@
    }
}

proof fn lemma_items_with_sep_is_up_to(v: Seq<Seq<char>>, k: int)
    requires
        0 <= k < v.len(),
    ensures
        spec_items_with_sep(v, k) == spec_arr_items_up_to(v, k),
    decreases k,
{
    if k > 0 {
        lemma_items_with_sep_is_up_to(v, k - 1);
    }
}

/// Separators and items never depend on entries past `k`.
proof fn lemma_items_with_sep_extend(v: Seq<Seq<char>>, w: Seq<Seq<char>>, k: int)
    requires
        0 <= k <= v.len(),
        v.len() <= w.len(),
        forall|j: int| 0 <= j < v.len() ==> v[j] == w[j],
    ensures
        spec_items_with_sep(v, k) == spec_items_with_sep(w, k),
    decreases k,
{
    if k > 0 {
        lemma_items_with_sep_extend(v, w, k - 1);
    }
}

/// The items from `k` on: the remainder of the rendered array body.
pub open spec fn spec_items_from(v: Seq<Seq<char>>, k: int) -> Seq<char>
    decreases v.len() - k,
{
    if k < 0 || k >= v.len() {
        Seq::empty()
    } else {
        "    "@ + spec_jstr(v[k]) + (if k + 1 < v.len() {
            ",\n"@ + spec_items_from(v, k + 1)
        } else {
            Seq::empty()
        })
    }
}

/// The rendered body splits at any item boundary into the fully
/// separated prefix and the remainder.
proof fn lemma_with_sep_from_split(v: Seq<Seq<char>>, k: int)
    requires
        0 <= k < v.len(),
    ensures
        spec_arr_items_up_to(v, v.len() as int) == spec_items_with_sep(v, k) + spec_items_from(
            v,
            k,
        ),
    decreases v.len() - k,
{
    if k == v.len() - 1 {
        lemma_items_with_sep_is_up_to(v, k);
        assert(spec_items_from(v, k) == "    "@ + spec_jstr(v[k]));
        assert(spec_arr_items_up_to(v, v.len() as int) =~= spec_items_with_sep(v, k)
            + spec_items_from(v, k));
    } else {
        lemma_with_sep_from_split(v, k + 1);
        assert(spec_items_with_sep(v, k + 1) == spec_items_with_sep(v, k) + "    "@ + spec_jstr(
            v[k],
        ) + ",\n"@);
        assert(spec_items_from(v, k) == "    "@ + spec_jstr(v[k]) + ",\n"@ + spec_items_from(
            v,
            k + 1,
        ));
        assert(spec_items_with_sep(v, k) + spec_items_from(v, k) =~= spec_items_with_sep(v, k + 1)
            + spec_items_from(v, k + 1));
    }
}

/// Where a parser that has read back `done` items stands inside the
/// rendered array carrying `xs`: at the indented next item, which is
/// followed by a separator or by the closing bracket as the remainder
/// demands.
proof fn lemma_arr_hypothesis(
    v: Seq<char>,
    jd: int,
    jk: int,
    done: Seq<Seq<char>>,
    xs: Seq<Seq<char>>,
    M: int,
)
    requires
        0 <= jd,
        jd + 2 <= jk <= v.len(),
        v.subrange(jd, jd + 2) == "[\n"@,
        v.subrange(jd + 2, jk) == spec_items_with_sep(done, done.len() as int),
        jd < M <= v.len(),
        v.subrange(jd, M) == spec_arr(xs),
        xs.len() > 0,
        done.len() < xs.len(),
        done == xs.take(done.len() as int),
    ensures
        ({
            let k = done.len() as int;
            let jn = jk + 4 + spec_jstr(xs[k]).len();
            &&& jk + 4 <= M
            &&& v.subrange(jk, jk + 4) == "    "@
            &&& jn <= M
            &&& v.subrange(jk + 4, jn as int) == spec_jstr(xs[k])
            &&& (k + 1 < xs.len() ==> jn + 2 <= M && v.subrange(jn as int, jn + 2) == ",\n"@)
            &&& (k + 1 == xs.len() ==> jn + 4 == M && v.subrange(jn as int, jn + 4) == "\n  ]"@)
        }),
{
    reveal_strlit("[\n");
    reveal_strlit("    ");
    reveal_strlit(",\n");
    reveal_strlit("\n  ]");
    let k = done.len() as int;
    let body = spec_arr_items_up_to(xs, xs.len() as int);
    assert(spec_arr(xs) == "[\n"@ + body + "\n  ]"@);
    lemma_with_sep_from_split(xs, k);
    assert forall|t: int| 0 <= t < xs.take(k).len() implies xs.take(k)[t] == xs[t] by {}
    lemma_items_with_sep_extend(done, xs, k);
    let consumed = spec_items_with_sep(xs, k);
    assert(jk - (jd + 2) == consumed.len());
    let from = spec_items_from(xs, k);
    assert(M - jd == spec_arr(xs).len());
    assert(M == jd + 2 + body.len() + 4);
    assert(body == consumed + from);
    assert(jk + from.len() == M - 4);
    assert(v.subrange(jk, M - 4) =~= from) by {
        assert forall|t: int| 0 <= t < from.len() implies v.subrange(jk, M - 4)[t] == from[t] by {
            assert(v.subrange(jd, M)[jk - jd + t] == spec_arr(xs)[jk - jd + t]);
        }
    }
    let jn = jk + 4 + spec_jstr(xs[k]).len();
    assert(v.subrange(jk, jk + 4) =~= "    "@) by {
        assert forall|t: int| 0 <= t < 4 implies v.subrange(jk, jk + 4)[t] == "    "@[t] by {
            assert(v.subrange(jk, M - 4)[t] == from[t]);
        }
    }
    assert(v.subrange(jk + 4, jn as int) =~= spec_jstr(xs[k])) by {
        assert forall|t: int| 0 <= t < spec_jstr(xs[k]).len() implies v.subrange(
            jk + 4,
            jn as int,
        )[t] == spec_jstr(xs[k])[t] by {
            assert(v.subrange(jk, M - 4)[t + 4] == from[t + 4]);
        }
    }
    if k + 1 < xs.len() {
        assert(v.subrange(jn as int, jn + 2) =~= ",\n"@) by {
            assert forall|t: int| 0 <= t < 2 implies v.subrange(jn as int, jn + 2)[t]
                == ",\n"@[t] by {
                assert(v.subrange(jk, M - 4)[jn - jk + t] == from[jn - jk + t]);
            }
        }
    } else {
        assert(jn == M - 4);
        assert forall|t: int| 0 <= t < 4 implies v.subrange(jn as int, jn + 4)[t]
            == "\n  ]"@[t] by {
            assert(v.subrange(jd, M)[jn - jd + t] == spec_arr(xs)[jn - jd + t]);
        }
        assert(v.subrange(jn as int, jn + 4) =~= "\n  ]"@);
    }
}

/// Parses the subvolume array at position `jd`. On success the
/// consumed text is exactly the canonical array form of the returned
/// list.
#[verifier::rlimit(100)]
/// A rendered non-empty array opens with the bracket and line break
/// and is at least as long as its fixed framing.
proof fn lemma_arr_nonempty_shape(xs: Seq<Seq<char>>)
    requires
        xs.len() > 0,
    ensures
        spec_arr(xs) == "[\n"@ + spec_arr_items_up_to(xs, xs.len() as int) + "\n  ]"@,
        spec_arr(xs).len() >= 6,
        spec_arr(xs)[0] == '[',
        spec_arr(xs)[1] == '\n',
{
lemma_arr_lits();
}

/// A rendered empty array is exactly the empty bracket pair.
proof fn lemma_arr_empty_shape(xs: Seq<Seq<char>>)
    requires
        xs.len() == 0,
    ensures
        spec_arr(xs) == "[]"@,
        spec_arr(xs).len() == 2,
        spec_arr(xs)[1] == ']',
{
lemma_arr_lits();
}

/// The fixed texts of the array rendering, spelled out.
proof fn lemma_arr_lits()
    ensures
        "[]"@.len() == 2,
        "[]"@[0] == '[',
        "[]"@[1] == ']',
        "[\n"@.len() == 2,
        "[\n"@[0] == '[',
        "[\n"@[1] == '\n',
        "    "@.len() == 4,
        ",\n"@.len() == 2,
        ",\n"@[0] == ',',
        "\n  ]"@.len() == 4,
        "\n  ]"@[0] == '\n',
{
    reveal_strlit("[]");
    reveal_strlit("[\n");
    reveal_strlit("    ");
    reveal_strlit(",\n");
    reveal_strlit("\n  ]");
}

#[verifier::rlimit(100)]
fn parse_subvolume_array(v: &Vec<char>, jd: usize) -> (r: Option<(Vec<String>, usize)>)
    requires
        jd <= v@.len(),
    ensures
        r is Some ==> jd <= r.unwrap().1 <= v@.len() && v@.subrange(
            jd as int,
            r.unwrap().1 as int,
        ) == spec_arr(r.unwrap().0.deep_view()),
        forall|xs: Seq<Seq<char>>, M: int|
            #![trigger v@.subrange(jd as int, M), spec_arr(xs)]
            jd as int <= M <= v@.len() && v@.subrange(jd as int, M) == spec_arr(xs) ==> (r is Some
                && r.unwrap().1 as int == M && r.unwrap().0.deep_view() == xs),
{
    proof {
        reveal_strlit("[]");
        reveal_strlit("[\n");
        reveal_strlit("    ");
        reveal_strlit(",\n");
        reveal_strlit("\n  ]");
    }
    let n = v.len();
    let mut subvolumes: Vec<String> = Vec::new();
    let je: usize;
    match expect_lit(v, jd, "[]") {
        Some(j) => {
            je = j;
            proof {
                assert(spec_arr(subvolumes.deep_view()) == "[]"@);
                assert forall|xs: Seq<Seq<char>>, M: int|
                    #![trigger v@.subrange(jd as int, M), spec_arr(xs)]
                    jd as int <= M <= n && v@.subrange(jd as int, M) == spec_arr(xs) implies je
                    as int == M && subvolumes.deep_view() == xs by {
                    lemma_arr_lits();
                    if xs.len() > 0 {
                        lemma_arr_nonempty_shape(xs);
                    } else {
                        lemma_arr_empty_shape(xs);
                    }
                    if xs.len() > 0 {
                        assert(spec_arr(xs)[1] == '\n');
                        assert(v@.subrange(jd as int, M)[1] == v@[jd as int + 1]);
                        assert(v@.subrange(jd as int, jd as int + 2)[1] == v@[jd as int + 1]);
                        assert(v@.subrange(jd as int, jd as int + 2)[1] == ']');
                        assert(false);
                    } else {
                        assert(M - jd == 2);
                        assert(subvolumes.deep_view() =~= xs);
                    }
                }
            }
        },
        None => {
            let jo = match expect_lit(v, jd, "[\n") {
                Some(j) => j,
                None => {
                    proof {
                        assert forall|xs: Seq<Seq<char>>, M: int|
                            #![trigger v@.subrange(jd as int, M), spec_arr(xs)]
                            jd as int <= M <= n && v@.subrange(jd as int, M) == spec_arr(xs)
                            implies false by {
                    lemma_arr_lits();
                    if xs.len() > 0 {
                        lemma_arr_nonempty_shape(xs);
                    } else {
                        lemma_arr_empty_shape(xs);
                    }
                            if xs.len() == 0 {
                                assert(M - jd == 2);
                                assert(v@.subrange(jd as int, jd as int + 2) =~= "[]"@) by {
                    lemma_arr_lits();
                    if xs.len() > 0 {
                        lemma_arr_nonempty_shape(xs);
                    } else {
                        lemma_arr_empty_shape(xs);
                    }
                                    assert forall|t: int| 0 <= t < 2 implies v@.subrange(
                                        jd as int,
                                        jd as int + 2,
                                    )[t] == "[]"@[t] by {
                                        assert(v@.subrange(jd as int, M)[t] == spec_arr(xs)[t]);
                                    }
                                }
                            } else {
                                assert(v@.subrange(jd as int, jd as int + 2) =~= "[\n"@) by {
                    lemma_arr_lits();
                    if xs.len() > 0 {
                        lemma_arr_nonempty_shape(xs);
                    } else {
                        lemma_arr_empty_shape(xs);
                    }
                                    assert(spec_arr(xs)[0] == '[' && spec_arr(xs)[1] == '\n');
                                    assert forall|t: int| 0 <= t < 2 implies v@.subrange(
                                        jd as int,
                                        jd as int + 2,
                                    )[t] == "[\n"@[t] by {
                                        assert(v@.subrange(jd as int, M)[t] == spec_arr(xs)[t]);
                                    }
                                }
                            }
                        }
                    }
                    return None;
                },
            };
            let mut jk = jo;
            let mut closed: Option<usize> = None;
            while closed.is_none()
                invariant
                    jo <= jk <= v@.len(),
                    n == v@.len(),
                    jo == jd + 2,
                    v@.subrange(jd as int, jd as int + 2) == "[\n"@,
                    !(jd + 2 <= n && v@.subrange(jd as int, jd as int + 2) == "[]"@),
                    closed is Some ==> jk == closed.unwrap() && jk <= v@.len(),
                    closed is None ==> v@.subrange(jo as int, jk as int) == spec_items_with_sep(
                        subvolumes.deep_view(),
                        subvolumes.deep_view().len() as int,
                    ),
                    closed is None ==> forall|xs: Seq<Seq<char>>, M: int|
                        #![trigger v@.subrange(jd as int, M), spec_arr(xs)]
                        jd as int <= M <= n && v@.subrange(jd as int, M) == spec_arr(xs)
                            ==> xs.len() > 0 && subvolumes.deep_view().len() < xs.len()
                            && subvolumes.deep_view() == xs.take(
                            subvolumes.deep_view().len() as int,
                        ),
                    closed is Some ==> subvolumes.deep_view().len() > 0 && v@.subrange(
                        jo as int,
                        jk as int,
                    ) == spec_arr_items_up_to(
                        subvolumes.deep_view(),
                        subvolumes.deep_view().len() as int,
                    ) + "\n  ]"@,
                    closed is Some ==> forall|xs: Seq<Seq<char>>, M: int|
                        #![trigger v@.subrange(jd as int, M), spec_arr(xs)]
                        jd as int <= M <= n && v@.subrange(jd as int, M) == spec_arr(xs) ==> jk
                            as int == M && subvolumes.deep_view() == xs,
                decreases v@.len() - jk + 1,
            {
                proof {
                    reveal_strlit("[]");
                    reveal_strlit("[\n");
                    reveal_strlit("    ");
                    reveal_strlit(",\n");
                    reveal_strlit("\n  ]");
                    assert forall|xs: Seq<Seq<char>>, M: int|
                        #![trigger v@.subrange(jd as int, M), spec_arr(xs)]
                        jd as int <= M <= n && v@.subrange(jd as int, M) == spec_arr(xs)
                        implies xs.len() > 0 && subvolumes.deep_view().len() < xs.len() by {
                    lemma_arr_lits();
                    if xs.len() > 0 {
                        lemma_arr_nonempty_shape(xs);
                    } else {
                        lemma_arr_empty_shape(xs);
                    }
                        if xs.len() == 0 {
                            assert(v@.subrange(jd as int, jd as int + 2) =~= "[]"@);
                        }
                    }
                }
                let ghost subs0 = subvolumes.deep_view();
                let ghost jk_prev = jk;
                let jm = match expect_lit(v, jk, "    ") {
                    Some(j) => j,
                    None => {
                        proof {
                            assert forall|xs: Seq<Seq<char>>, M: int|
                                #![trigger v@.subrange(jd as int, M), spec_arr(xs)]
                                jd as int <= M <= n && v@.subrange(jd as int, M) == spec_arr(xs)
                                implies false by {
                    lemma_arr_lits();
                    if xs.len() > 0 {
                        lemma_arr_nonempty_shape(xs);
                    } else {
                        lemma_arr_empty_shape(xs);
                    }
                                lemma_arr_hypothesis(v@, jd as int, jk as int, subs0, xs, M);
                            }
                        }
                        return None;
                    },
                };
                let parsed = parse_jstr(v, jm);
                proof {
                    assert forall|xs: Seq<Seq<char>>, M: int|
                        #![trigger v@.subrange(jd as int, M), spec_arr(xs)]
                        jd as int <= M <= n && v@.subrange(jd as int, M) == spec_arr(xs)
                        implies parsed is Some && parsed.unwrap().0@ == xs[subs0.len() as int]
                            && parsed.unwrap().1 as int == jm + spec_jstr(
                            xs[subs0.len() as int],
                        ).len() by {
                    lemma_arr_lits();
                    if xs.len() > 0 {
                        lemma_arr_nonempty_shape(xs);
                    } else {
                        lemma_arr_empty_shape(xs);
                    }
                        lemma_arr_hypothesis(v@, jd as int, jk as int, subs0, xs, M);
                        let k = subs0.len() as int;
                        let jn0 = jk + 4 + spec_jstr(xs[k]).len();
                        assert(v@.subrange(jm as int, jn0 as int) == spec_jstr(xs[k]));
                    }
                }
                let (item, jn) = match parsed {
                    Some(p) => p,
                    None => {
                        return None;
                    },
                };
                let ghost itemview = item@;
                subvolumes.push(item);
                let ghost subs1 = subvolumes.deep_view();
                proof {
                    assert(subs1 =~= subs0.push(itemview));
                    assert(subs1[subs0.len() as int] == itemview);
                    lemma_items_with_sep_extend(subs0, subs1, subs0.len() as int);
                    assert(v@.subrange(jo as int, jn as int) =~= v@.subrange(
                        jo as int,
                        jk_prev as int,
                    ) + v@.subrange(jk_prev as int, jm as int) + v@.subrange(jm as int, jn as int));
                    assert(v@.subrange(jo as int, jn as int) =~= spec_items_with_sep(
                        subs1,
                        subs0.len() as int,
                    ) + "    "@ + spec_jstr(itemview));
                }
                match expect_lit(v, jn, ",\n") {
                    Some(j) => {
                        jk = j;
                        proof {
                            assert(v@.subrange(jo as int, jk as int) =~= v@.subrange(
                                jo as int,
                                jn as int,
                            ) + v@.subrange(jn as int, jk as int));
                            assert(v@.subrange(jo as int, jk as int) =~= spec_items_with_sep(
                                subs1,
                                subs1.len() as int,
                            ));
                            assert forall|xs: Seq<Seq<char>>, M: int|
                                #![trigger v@.subrange(jd as int, M), spec_arr(xs)]
                                jd as int <= M <= n && v@.subrange(jd as int, M) == spec_arr(xs)
                                implies xs.len() > 0 && subs1.len() < xs.len() && subs1 == xs.take(
                                subs1.len() as int,
                            ) by {
                    lemma_arr_lits();
                    if xs.len() > 0 {
                        lemma_arr_nonempty_shape(xs);
                    } else {
                        lemma_arr_empty_shape(xs);
                    }
                                lemma_arr_hypothesis(v@, jd as int, jk_prev as int, subs0, xs, M);
                                let k = subs0.len() as int;
                                let jn0 = jk_prev + 4 + spec_jstr(xs[k]).len();
                                if k + 1 == xs.len() {
                                    assert(v@.subrange(jn as int, jn as int + 4)[0] == '\n');
                                    assert(v@.subrange(jn as int, jn as int + 2)[0] == ',');
                                }
                                assert(subs1 =~= xs.take(k + 1));
                            }
                        }
                    },
                    None => {
                        match expect_lit(v, jn, "\n  ]") {
                            Some(j) => {
                                jk = j;
                                closed = Some(j);
                                proof {
                                    lemma_items_with_sep_is_up_to(subs1, subs1.len() - 1);
                                    assert(spec_arr_items_up_to(subs1, subs1.len() as int)
                                        =~= spec_items_with_sep(subs1, subs1.len() - 1) + "    "@
                                        + spec_jstr(subs1.last()));
                                    assert(v@.subrange(jo as int, jk as int) =~= v@.subrange(
                                        jo as int,
                                        jn as int,
                                    ) + v@.subrange(jn as int, jk as int));
                                    assert(v@.subrange(jo as int, jk as int)
                                        =~= spec_arr_items_up_to(subs1, subs1.len() as int)
                                        + "\n  ]"@);
                                    assert forall|xs: Seq<Seq<char>>, M: int|
                                        #![trigger v@.subrange(jd as int, M), spec_arr(xs)]
                                        jd as int <= M <= n && v@.subrange(jd as int, M)
                                            == spec_arr(xs) implies jk as int == M && subs1
                                        == xs by {
                    lemma_arr_lits();
                    if xs.len() > 0 {
                        lemma_arr_nonempty_shape(xs);
                    } else {
                        lemma_arr_empty_shape(xs);
                    }
                                        lemma_arr_hypothesis(
                                            v@,
                                            jd as int,
                                            jk_prev as int,
                                            subs0,
                                            xs,
                                            M,
                                        );
                                        let k = subs0.len() as int;
                                        if k + 1 < xs.len() {
                                            assert(v@.subrange(jn as int, jn as int + 2)[0]
                                                == ',');
                                            assert(v@.subrange(jn as int, jn as int + 4)[0]
                                                == '\n');
                                        }
                                        assert(subs1 =~= xs.take(k + 1));
                                        assert(xs.take(xs.len() as int) =~= xs);
                                    }
                                }
                            },
                            None => {
                                proof {
                                    assert forall|xs: Seq<Seq<char>>, M: int|
                                        #![trigger v@.subrange(jd as int, M), spec_arr(xs)]
                                        jd as int <= M <= n && v@.subrange(jd as int, M)
                                            == spec_arr(xs) implies false by {
                    lemma_arr_lits();
                    if xs.len() > 0 {
                        lemma_arr_nonempty_shape(xs);
                    } else {
                        lemma_arr_empty_shape(xs);
                    }
                                        lemma_arr_hypothesis(
                                            v@,
                                            jd as int,
                                            jk_prev as int,
                                            subs0,
                                            xs,
                                            M,
                                        );
                                    }
                                }
                                return None;
                            },
                        }
                    },
                }
            }
            je = jk;
            proof {
                assert(v@.subrange(jd as int, je as int) =~= v@.subrange(jd as int, jo as int)
                    + v@.subrange(jo as int, je as int));
                assert(spec_arr(subvolumes.deep_view()) == "[\n"@ + spec_arr_items_up_to(
                    subvolumes.deep_view(),
                    subvolumes.deep_view().len() as int,
                ) + "\n  ]"@);
                assert(v@.subrange(jd as int, je as int) =~= spec_arr(subvolumes.deep_view()));
            }
        },
    }
    Some((subvolumes, je))
}

/// Reads one `key: "value",` line. Absence of the key is not a
/// failure; a present key must be followed by a canonical JSON string
/// and the line separator. Whenever the text at `i` carries the key,
/// a canonical string and the separator, the read succeeds and hands
/// back exactly that string and the position after the separator.
#[verifier::rlimit(100)]
fn parse_string_line(v: &Vec<char>, i: usize, key: &str) -> (r: Result<
    Option<(String, usize)>,
    SnapshotError,
>)
    requires
        i <= v@.len(),
    ensures
        r is Err ==> r == Err::<Option<(String, usize)>, SnapshotError>(
            SnapshotError::MetadataCorrupt,
        ),
        !(r is Ok && r.unwrap() is None) ==> i + key@.len() <= v@.len() && v@.subrange(
            i as int,
            i + key@.len(),
        ) == key@,
        r is Ok && r.unwrap() is None ==> !(i + key@.len() <= v@.len() && v@.subrange(
            i as int,
            i + key@.len(),
        ) == key@),
        r is Ok && r.unwrap() is Some ==> ({
            let (x, j) = r.unwrap().unwrap();
            i < j <= v@.len() && v@.subrange(i as int, j as int) == key@ + spec_jstr(x@) + ",\n"@
        }),
        forall|x: Seq<char>, M: int|
            #![trigger v@.subrange(i as int, M), spec_jstr(x)]
            i as int <= M <= v@.len() && v@.subrange(i as int, M) == key@ + spec_jstr(x) + ",\n"@
                ==> (r is Ok && r.unwrap() is Some && r.unwrap().unwrap().0@ == x
                && r.unwrap().unwrap().1 as int == M),
{
    proof {
        reveal_strlit(",\n");
    }
    let ghost hyp_pieces = |x: Seq<char>, M: int|
        {
            &&& v@.subrange(i as int, i + key@.len()) == key@
            &&& v@.subrange(i + key@.len(), M - 2) == spec_jstr(x)
            &&& i + key@.len() + spec_jstr(x).len() == M - 2
        };
    proof {
        assert forall|x: Seq<char>, M: int|
            #![trigger v@.subrange(i as int, M), spec_jstr(x)]
            i as int <= M <= v@.len() && v@.subrange(i as int, M) == key@ + spec_jstr(x) + ",\n"@
            implies hyp_pieces(x, M) by {
            let whole = key@ + spec_jstr(x) + ",\n"@;
            assert(M - i == whole.len());
            assert(v@.subrange(i as int, i + key@.len()) =~= key@) by {
                assert forall|t: int| 0 <= t < key@.len() implies v@.subrange(
                    i as int,
                    i + key@.len(),
                )[t] == key@[t] by {
                    assert(v@.subrange(i as int, M)[t] == whole[t]);
                }
            }
            assert(v@.subrange(i + key@.len(), M - 2) =~= spec_jstr(x)) by {
                assert forall|t: int| 0 <= t < spec_jstr(x).len() implies v@.subrange(
                    i + key@.len(),
                    M - 2,
                )[t] == spec_jstr(x)[t] by {
                    assert(v@.subrange(i as int, M)[key@.len() + t] == whole[key@.len() + t]);
                }
            }
        }
    }
    let ja = match expect_lit(v, i, key) {
        Some(j) => j,
        None => {
            return Ok(None);
        },
    };
    let parsed = parse_jstr(v, ja);
    proof {
        assert forall|x: Seq<char>, M: int|
            #![trigger v@.subrange(i as int, M), spec_jstr(x)]
            i as int <= M <= v@.len() && v@.subrange(i as int, M) == key@ + spec_jstr(x) + ",\n"@
            implies parsed is Some && parsed.unwrap().0@ == x && parsed.unwrap().1 as int == M
            - 2 by {
            assert(hyp_pieces(x, M));
            assert(v@.subrange(ja as int, M - 2) == spec_jstr(x));
        }
    }
    let (xstr, jb) = match parsed {
        Some(p) => p,
        None => {
            return Err(SnapshotError::MetadataCorrupt);
        },
    };
    let jc = match expect_lit(v, jb, ",\n") {
        Some(j) => j,
        None => {
            proof {
                assert forall|x: Seq<char>, M: int|
                    #![trigger v@.subrange(i as int, M), spec_jstr(x)]
                    i as int <= M <= v@.len() && v@.subrange(i as int, M) == key@ + spec_jstr(x)
                        + ",\n"@ implies false by {
                    assert(hyp_pieces(x, M));
                    assert(v@.subrange(jb as int, jb as int + 2) =~= ",\n"@) by {
                        assert forall|t: int| 0 <= t < 2 implies v@.subrange(
                            jb as int,
                            jb as int + 2,
                        )[t] == ",\n"@[t] by {
                            assert(v@.subrange(i as int, M)[jb - i + t] == (key@ + spec_jstr(x)
                                + ",\n"@)[jb - i + t]);
                        }
                    }
                }
            }
            return Err(SnapshotError::MetadataCorrupt);
        },
    };
    proof {
        assert(v@.subrange(i as int, jc as int) =~= v@.subrange(i as int, ja as int) + v@.subrange(
            ja as int,
            jb as int,
        ) + v@.subrange(jb as int, jc as int));
        assert(v@.subrange(i as int, jc as int) =~= key@ + spec_jstr(xstr@) + ",\n"@);
    }
    Ok(Some((xstr, jc)))
}

/// The fixed key texts of the record's lines, spelled out where the
/// parser must tell them apart.
proof fn lemma_key_lits()
    ensures
        "{\n  \"uuid\": "@.len() == 12,
        "  \"name\": "@.len() == 10,
        "  \"name\": "@[3] == 'n',
        "  \"description\": "@.len() == 17,
        "  \"description\": "@[3] == 'd',
        "  \"creation_time\": "@.len() == 19,
        "  \"creation_time\": "@[3] == 'c',
        "  \"subvolumes\": "@.len() == 16,
        "  \"subvolumes\": "@[3] == 's',
        ",\n"@.len() == 2,
        "\n}"@.len() == 2,
{
    reveal_strlit("{\n  \"uuid\": ");
    reveal_strlit("  \"name\": ");
    reveal_strlit("  \"description\": ");
    reveal_strlit("  \"creation_time\": ");
    reveal_strlit("  \"subvolumes\": ");
    reveal_strlit(",\n");
    reveal_strlit("\n}");
}

/// Everything before the subvolume array: the identity line, the two
/// optional label lines, and the creation-time line.
pub open spec fn spec_prologue(m: &SnapshotMetadata) -> Seq<char> {
    "{\n  \"uuid\": "@ + spec_jstr(spec_format_id(m.uuid.value)) + ",\n"@ + spec_name_part(m)
        + spec_desc_part(m) + "  \"creation_time\": "@ + spec_jstr(m.creation_time@) + ",\n"@
}

/// Text that opens with a record's prologue opens with its identity
/// line.
proof fn lemma_prologue_head(v: Seq<char>, m: SnapshotMetadata, M: int)
    requires
        0 <= M <= v.len(),
        v.subrange(0, M) == spec_prologue(&m),
    ensures
        ({
            let hm = "{\n  \"uuid\": "@ + spec_jstr(spec_format_id(m.uuid.value)) + ",\n"@;
            hm.len() <= M && v.subrange(0, hm.len() as int) == hm
        }),
{
    lemma_key_lits();
    let hm = "{\n  \"uuid\": "@ + spec_jstr(spec_format_id(m.uuid.value)) + ",\n"@;
    assert(M == spec_prologue(&m).len());
    assert(v.subrange(0, hm.len() as int) =~= hm) by {
        assert forall|t: int| 0 <= t < hm.len() implies v.subrange(0, hm.len() as int)[t]
            == hm[t] by {
            assert(v.subrange(0, M)[t] == spec_prologue(&m)[t]);
        }
    }
}

/// After the identity line comes the name line when one is set, and
/// otherwise the next line's key begins with another letter.
proof fn lemma_prologue_after_head(v: Seq<char>, j2: int, m: SnapshotMetadata, M: int)
    requires
        0 <= M <= v.len(),
        v.subrange(0, M) == spec_prologue(&m),
        j2 == 12 + spec_jstr(spec_format_id(m.uuid.value)).len() + 2,
    ensures
        j2 + spec_name_part(&m).len() <= M,
        v.subrange(j2, j2 + spec_name_part(&m).len()) == spec_name_part(&m),
        m.name is None ==> j2 + 10 <= M && v.subrange(j2, j2 + 10)[3] != 'n',
{
    lemma_key_lits();
    assert(M == spec_prologue(&m).len());
    assert(v.subrange(j2, j2 + spec_name_part(&m).len()) =~= spec_name_part(&m)) by {
        assert forall|t: int| 0 <= t < spec_name_part(&m).len() implies v.subrange(
            j2,
            j2 + spec_name_part(&m).len(),
        )[t] == spec_name_part(&m)[t] by {
            assert(v.subrange(0, M)[j2 + t] == spec_prologue(&m)[j2 + t]);
        }
    }
    if m.name is None {
        if m.description is Some {
            assert(v.subrange(j2, j2 + 10)[3] == spec_desc_part(&m)[3]) by {
                assert(v.subrange(0, M)[j2 + 3] == spec_prologue(&m)[j2 + 3]);
            }
        } else {
            assert(v.subrange(j2, j2 + 10)[3] == "  \"creation_time\": "@[3]) by {
                assert(v.subrange(0, M)[j2 + 3] == spec_prologue(&m)[j2 + 3]);
            }
        }
    }
}

/// After the name line comes the description line when one is set,
/// and otherwise the creation-time key.
proof fn lemma_prologue_after_name(v: Seq<char>, jx: int, m: SnapshotMetadata, M: int)
    requires
        0 <= M <= v.len(),
        v.subrange(0, M) == spec_prologue(&m),
        jx == 12 + spec_jstr(spec_format_id(m.uuid.value)).len() + 2 + spec_name_part(&m).len(),
    ensures
        jx + spec_desc_part(&m).len() <= M,
        v.subrange(jx, jx + spec_desc_part(&m).len()) == spec_desc_part(&m),
        m.description is None ==> jx + 17 <= M && v.subrange(jx, jx + 17)[3] != 'd',
{
    lemma_key_lits();
    assert(M == spec_prologue(&m).len());
    assert(v.subrange(jx, jx + spec_desc_part(&m).len()) =~= spec_desc_part(&m)) by {
        assert forall|t: int| 0 <= t < spec_desc_part(&m).len() implies v.subrange(
            jx,
            jx + spec_desc_part(&m).len(),
        )[t] == spec_desc_part(&m)[t] by {
            assert(v.subrange(0, M)[jx + t] == spec_prologue(&m)[jx + t]);
        }
    }
    if m.description is None {
        assert(v.subrange(jx, jx + 17)[3] == "  \"creation_time\": "@[3]) by {
            assert(v.subrange(0, M)[jx + 3] == spec_prologue(&m)[jx + 3]);
        }
    }
}

/// The creation-time line fills the prologue to its end.
proof fn lemma_prologue_tail(v: Seq<char>, jy: int, m: SnapshotMetadata, M: int)
    requires
        0 <= M <= v.len(),
        v.subrange(0, M) == spec_prologue(&m),
        jy == 12 + spec_jstr(spec_format_id(m.uuid.value)).len() + 2 + spec_name_part(&m).len()
            + spec_desc_part(&m).len(),
    ensures
        ({
            let tpart = "  \"creation_time\": "@ + spec_jstr(m.creation_time@) + ",\n"@;
            jy + tpart.len() == M && v.subrange(jy, M) == tpart
        }),
{
    lemma_key_lits();
    assert(M == spec_prologue(&m).len());
    let tpart = "  \"creation_time\": "@ + spec_jstr(m.creation_time@) + ",\n"@;
    assert(v.subrange(jy, M) =~= tpart) by {
        assert forall|t: int| 0 <= t < tpart.len() implies v.subrange(jy, M)[t] == tpart[t] by {
            assert(v.subrange(0, M)[jy + t] == spec_prologue(&m)[jy + t]);
        }
    }
}

/// Reads the identity line: its value must be spelled in the
/// canonical hyphenated form. Whenever the text opens with a
/// canonical identity line, the read succeeds with that identity.
#[verifier::rlimit(100)]
fn parse_identity_line(v: &Vec<char>) -> (r: Result<(SnapshotId, usize), SnapshotError>)
    ensures
        r is Err ==> r == Err::<(SnapshotId, usize), SnapshotError>(SnapshotError::MetadataCorrupt),
        r is Ok ==> ({
            let (id, j) = r.unwrap();
            j <= v@.len() && v@.subrange(0, j as int) == "{\n  \"uuid\": "@ + spec_jstr(
                spec_format_id(id.value),
            ) + ",\n"@
        }),
        forall|idv: u128, M: int|
            #![trigger v@.subrange(0, M), spec_format_id(idv)]
            0 <= M <= v@.len() && v@.subrange(0, M) == "{\n  \"uuid\": "@ + spec_jstr(
                spec_format_id(idv),
            ) + ",\n"@ ==> (r is Ok && r.unwrap().0.value == idv && r.unwrap().1 as int == M),
{
    let uline = parse_string_line(v, 0, "{\n  \"uuid\": ");
    let (ustr, j2) = match uline {
        Ok(Some(p)) => p,
        _ => {
            proof {
                assert forall|idv: u128, M: int|
                    #![trigger v@.subrange(0, M), spec_format_id(idv)]
                    0 <= M <= v@.len() && v@.subrange(0, M) == "{\n  \"uuid\": "@ + spec_jstr(
                        spec_format_id(idv),
                    ) + ",\n"@ implies false by {}
            }
            return Err(SnapshotError::MetadataCorrupt);
        },
    };
    proof {
        assert forall|idv: u128, M: int|
            #![trigger v@.subrange(0, M), spec_format_id(idv)]
            0 <= M <= v@.len() && v@.subrange(0, M) == "{\n  \"uuid\": "@ + spec_jstr(
                spec_format_id(idv),
            ) + ",\n"@ implies ustr@ == spec_format_id(idv) && j2 as int == M by {}
    }
    let id = match parse_id(ustr.as_str()) {
        Ok(id) => id,
        Err(_) => {
            proof {
                assert forall|idv: u128, M: int|
                    #![trigger v@.subrange(0, M), spec_format_id(idv)]
                    0 <= M <= v@.len() && v@.subrange(0, M) == "{\n  \"uuid\": "@ + spec_jstr(
                        spec_format_id(idv),
                    ) + ",\n"@ implies false by {
                    crate::id::lemma_format_parse_round_trip(idv);
                }
            }
            return Err(SnapshotError::MetadataCorrupt);
        },
    };
    let fmt = id.format();
    if !(ustr == fmt) {
        proof {
            assert forall|idv: u128, M: int|
                #![trigger v@.subrange(0, M), spec_format_id(idv)]
                0 <= M <= v@.len() && v@.subrange(0, M) == "{\n  \"uuid\": "@ + spec_jstr(
                    spec_format_id(idv),
                ) + ",\n"@ implies false by {
                crate::id::lemma_format_parse_round_trip(idv);
            }
        }
        return Err(SnapshotError::MetadataCorrupt);
    }
    proof {
        assert forall|idv: u128, M: int|
            #![trigger v@.subrange(0, M), spec_format_id(idv)]
            0 <= M <= v@.len() && v@.subrange(0, M) == "{\n  \"uuid\": "@ + spec_jstr(
                spec_format_id(idv),
            ) + ",\n"@ implies id.value == idv by {
            crate::id::lemma_format_parse_round_trip(idv);
        }
    }
    Ok((id, j2))
}

/// Reads one optional label line, clearing nothing and inventing
/// nothing: a present label is handed back as written, and a blank
/// one is refused.
#[verifier::rlimit(100)]
fn parse_label_line(v: &Vec<char>, i: usize, key: &str) -> (r: Result<
    (Option<String>, usize),
    SnapshotError,
>)
    requires
        i <= v@.len(),
    ensures
        r is Err ==> r == Err::<(Option<String>, usize), SnapshotError>(
            SnapshotError::MetadataCorrupt,
        ),
        r is Ok ==> i <= r.unwrap().1 <= v@.len(),
        r is Ok && r.unwrap().0 is Some ==> v@.subrange(i as int, r.unwrap().1 as int) == key@
            + spec_jstr(r.unwrap().0.unwrap()@) + ",\n"@ && !spec_is_blank(
            r.unwrap().0.unwrap()@,
        ),
        r is Ok && r.unwrap().0 is None ==> r.unwrap().1 == i,
        !(r is Ok && r.unwrap().0 is None) ==> i + key@.len() <= v@.len() && v@.subrange(
            i as int,
            i + key@.len(),
        ) == key@,
        forall|x: Seq<char>, M: int|
            #![trigger v@.subrange(i as int, M), spec_jstr(x)]
            i as int <= M <= v@.len() && v@.subrange(i as int, M) == key@ + spec_jstr(x) + ",\n"@
                && !spec_is_blank(x) ==> (r is Ok && r.unwrap().0 is Some
                && r.unwrap().0.unwrap()@ == x && r.unwrap().1 as int == M),
{
    match parse_string_line(v, i, key) {
        Ok(Some((x, j))) => {
            if is_blank(x.as_str()) {
                return Err(SnapshotError::MetadataCorrupt);
            }
            Ok((Some(x), j))
        },
        Ok(None) => Ok((None, i)),
        Err(e) => Err(e),
    }
}

/// Reads the record's prologue: the identity line, the labels when
/// present and not blank, and a well-formed creation time. Whenever
/// the text opens with the prologue of a well-formed record, the read
/// succeeds and hands its fields back exactly.
#[verifier::rlimit(100)]
fn parse_prologue(v: &Vec<char>) -> (r: Result<
    (SnapshotId, Option<String>, Option<String>, String, usize),
    SnapshotError,
>)
    ensures
        r is Err ==> r == Err::<
            (SnapshotId, Option<String>, Option<String>, String, usize),
            SnapshotError,
        >(SnapshotError::MetadataCorrupt),
        r is Ok ==> ({
            let (id, name, description, ct, j) = r.unwrap();
            &&& j <= v@.len()
            &&& v@.subrange(0, j as int) == "{\n  \"uuid\": "@ + spec_jstr(
                spec_format_id(id.value),
            ) + ",\n"@ + (match name {
                Some(nm) => "  \"name\": "@ + spec_jstr(nm@) + ",\n"@,
                None => Seq::<char>::empty(),
            }) + (match description {
                Some(dc) => "  \"description\": "@ + spec_jstr(dc@) + ",\n"@,
                None => Seq::<char>::empty(),
            }) + "  \"creation_time\": "@ + spec_jstr(ct@) + ",\n"@
            &&& crate::metadata::label_wf(&name)
            &&& crate::metadata::label_wf(&description)
            &&& is_rfc3339(ct@)
        }),
        forall|m: SnapshotMetadata, M: int|
            #![trigger v@.subrange(0, M), spec_prologue(&m)]
            0 <= M <= v@.len() && v@.subrange(0, M) == spec_prologue(&m) && m.wf() ==> (r is Ok
                && r.unwrap().0 == m.uuid && crate::metadata::label_view(&r.unwrap().1)
                == crate::metadata::label_view(&m.name) && crate::metadata::label_view(
                &r.unwrap().2,
            ) == crate::metadata::label_view(&m.description) && r.unwrap().3@
                == m.creation_time@ && r.unwrap().4 as int == M),
{
    let ghost hyp = |m: SnapshotMetadata, M: int|
        0 <= M <= v@.len() && v@.subrange(0, M) == spec_prologue(&m) && m.wf();
    let iline = parse_identity_line(v);
    proof {
        assert forall|m: SnapshotMetadata, M: int|
            #![trigger v@.subrange(0, M), spec_prologue(&m)]
            hyp(m, M) implies iline is Ok && iline.unwrap().0 == m.uuid && iline.unwrap().1 as int
            == 12 + spec_jstr(spec_format_id(m.uuid.value)).len() + 2 by {
            lemma_key_lits();
            lemma_prologue_head(v@, m, M);
            assert(iline.unwrap().0.value == m.uuid.value);
        }
    }
    let (id, j2) = match iline {
        Ok(p) => p,
        Err(e) => {
            return Err(e);
        },
    };
    let ghost head = "{\n  \"uuid\": "@ + spec_jstr(spec_format_id(id.value)) + ",\n"@;
    let nline = parse_label_line(v, j2, "  \"name\": ");
    proof {
        assert forall|m: SnapshotMetadata, M: int|
            #![trigger v@.subrange(0, M), spec_prologue(&m)]
            hyp(m, M) implies nline is Ok && crate::metadata::label_view(&nline.unwrap().0)
            == crate::metadata::label_view(&m.name) && nline.unwrap().1 as int == j2
            + spec_name_part(&m).len() by {
            lemma_key_lits();
            lemma_prologue_after_head(v@, j2 as int, m, M);
            if m.name is Some {
                assert(v@.subrange(j2 as int, j2 + spec_name_part(&m).len()) == "  \"name\": "@
                    + spec_jstr(m.name.unwrap()@) + ",\n"@);
            } else {
                if !(nline is Ok && nline.unwrap().0 is None) {
                    assert(v@.subrange(j2 as int, j2 as int + 10) == "  \"name\": "@);
                    assert(v@.subrange(j2 as int, j2 as int + 10)[3] == 'n');
                }
            }
        }
    }
    let (name, jx) = match nline {
        Ok(p) => p,
        Err(e) => {
            return Err(e);
        },
    };
    let ghost name_text = match name {
        Some(ref nm) => "  \"name\": "@ + spec_jstr(nm@) + ",\n"@,
        None => Seq::<char>::empty(),
    };
    let dline = parse_label_line(v, jx, "  \"description\": ");
    proof {
        assert forall|m: SnapshotMetadata, M: int|
            #![trigger v@.subrange(0, M), spec_prologue(&m)]
            hyp(m, M) implies dline is Ok && crate::metadata::label_view(&dline.unwrap().0)
            == crate::metadata::label_view(&m.description) && dline.unwrap().1 as int == jx
            + spec_desc_part(&m).len() by {
            lemma_key_lits();
            lemma_prologue_after_name(v@, jx as int, m, M);
            if m.description is Some {
                assert(v@.subrange(jx as int, jx + spec_desc_part(&m).len())
                    == "  \"description\": "@ + spec_jstr(m.description.unwrap()@) + ",\n"@);
            } else {
                if !(dline is Ok && dline.unwrap().0 is None) {
                    assert(v@.subrange(jx as int, jx as int + 17) == "  \"description\": "@);
                    assert(v@.subrange(jx as int, jx as int + 17)[3] == 'd');
                }
            }
        }
    }
    let (description, jy) = match dline {
        Ok(p) => p,
        Err(e) => {
            return Err(e);
        },
    };
    let ghost desc_text = match description {
        Some(ref dc) => "  \"description\": "@ + spec_jstr(dc@) + ",\n"@,
        None => Seq::<char>::empty(),
    };
    let tline = parse_string_line(v, jy, "  \"creation_time\": ");
    proof {
        assert forall|m: SnapshotMetadata, M: int|
            #![trigger v@.subrange(0, M), spec_prologue(&m)]
            hyp(m, M) implies tline is Ok && tline.unwrap() is Some
            && tline.unwrap().unwrap().0@ == m.creation_time@ && tline.unwrap().unwrap().1 as int
            == M by {
            lemma_key_lits();
            lemma_prologue_tail(v@, jy as int, m, M);
        }
    }
    let (ct, jz) = match tline {
        Ok(Some(p)) => p,
        _ => {
            return Err(SnapshotError::MetadataCorrupt);
        },
    };
    if !is_rfc3339_str(ct.as_str()) {
        return Err(SnapshotError::MetadataCorrupt);
    }
    proof {
        assert(v@.subrange(0, jz as int) =~= v@.subrange(0, j2 as int) + v@.subrange(
            j2 as int,
            jx as int,
        ) + v@.subrange(jx as int, jy as int) + v@.subrange(jy as int, jz as int));
        assert(v@.subrange(0, jz as int) =~= head + name_text + desc_text
            + "  \"creation_time\": "@ + spec_jstr(ct@) + ",\n"@);
    }
    Ok((id, name, description, ct, jz))
}

/// Reads the canonical persisted text of a record back.
///
/// The decoder and the encoder agree exactly: whenever a record comes
/// back, the input was, character for character, its canonical
/// encoding; and whenever the input is the canonical encoding of some
/// well-formed record, that record comes back. Any other input is
/// corrupt metadata, never silently repaired.
#[verifier::rlimit(100)]
pub fn decode_metadata(s: &str) -> (r: Result<SnapshotMetadata, SnapshotError>)
    ensures
        r is Ok ==> s@ == spec_encode(&r.unwrap()) && r.unwrap().wf(),
        r is Err ==> r == Err::<SnapshotMetadata, SnapshotError>(SnapshotError::MetadataCorrupt),
        r is Err ==> forall|m: SnapshotMetadata| #[trigger]
            spec_encode(&m) != s@ || !m.wf(),
{
    let v = chars_of(s);
    let n = v.len();
    proof {
        assert forall|m: SnapshotMetadata| m.wf() && s@ == #[trigger] spec_encode(&m) implies spec_prologue(&m).len() <= n
            && v@.subrange(0, spec_prologue(&m).len() as int) == spec_prologue(&m) by {
            assert(spec_encode(&m) =~= spec_prologue(&m) + "  \"subvolumes\": "@ + spec_arr(
                m.subvolumes.deep_view(),
            ) + "\n}"@);
            let pm = spec_prologue(&m).len() as int;
            assert(v@.subrange(0, pm) =~= spec_prologue(&m)) by {
                assert forall|t: int| 0 <= t < pm implies v@.subrange(0, pm)[t]
                    == spec_prologue(&m)[t] by {
                    assert(v@[t] == spec_encode(&m)[t]);
                }
            }
        }
    }
    let pro = parse_prologue(&v);
    proof {
        assert forall|m: SnapshotMetadata| m.wf() && s@ == #[trigger] spec_encode(&m) implies pro is Ok && pro.unwrap().0
            == m.uuid && crate::metadata::label_view(&pro.unwrap().1)
            == crate::metadata::label_view(&m.name) && crate::metadata::label_view(
            &pro.unwrap().2,
        ) == crate::metadata::label_view(&m.description) && pro.unwrap().3@ == m.creation_time@
            && pro.unwrap().4 as int == spec_prologue(&m).len() by {}
    }
    let (id, name, description, ct, jy) = match pro {
        Ok(p) => p,
        Err(e) => {
            return Err(e);
        },
    };
    proof {
        assert forall|m: SnapshotMetadata| m.wf() && s@ == #[trigger] spec_encode(&m) implies jy + 16 <= n && v@.subrange(
            jy as int,
            jy as int + 16,
        ) == "  \"subvolumes\": "@ && jy + 16 + spec_arr(m.subvolumes.deep_view()).len() + 2
            == n by {
            lemma_key_lits();
            assert(spec_encode(&m) =~= spec_prologue(&m) + "  \"subvolumes\": "@ + spec_arr(
                m.subvolumes.deep_view(),
            ) + "\n}"@);
            assert(n == spec_encode(&m).len());
            assert(v@.subrange(jy as int, jy as int + 16) =~= "  \"subvolumes\": "@) by {
                assert forall|t: int| 0 <= t < 16 implies v@.subrange(
                    jy as int,
                    jy as int + 16,
                )[t] == "  \"subvolumes\": "@[t] by {
                    assert(v@[jy + t] == spec_encode(&m)[jy + t]);
                }
            }
        }
    }
    let jd = match expect_lit(&v, jy, "  \"subvolumes\": ") {
        Some(j) => j,
        None => {
            return Err(SnapshotError::MetadataCorrupt);
        },
    };
    proof {
        assert forall|m: SnapshotMetadata| m.wf() && s@ == #[trigger] spec_encode(&m) implies jd + spec_arr(
            m.subvolumes.deep_view(),
        ).len() <= n && v@.subrange(
            jd as int,
            jd + spec_arr(m.subvolumes.deep_view()).len(),
        ) == spec_arr(m.subvolumes.deep_view()) by {
            lemma_key_lits();
            assert(spec_encode(&m) =~= spec_prologue(&m) + "  \"subvolumes\": "@ + spec_arr(
                m.subvolumes.deep_view(),
            ) + "\n}"@);
            assert(n == spec_encode(&m).len());
            let alen = spec_arr(m.subvolumes.deep_view()).len() as int;
            assert(v@.subrange(jd as int, jd + alen) =~= spec_arr(m.subvolumes.deep_view())) by {
                assert forall|t: int| 0 <= t < alen implies v@.subrange(jd as int, jd + alen)[t]
                    == spec_arr(m.subvolumes.deep_view())[t] by {
                    assert(v@[jd + t] == spec_encode(&m)[jd + t]);
                }
            }
        }
    }
    let arr = parse_subvolume_array(&v, jd);
    proof {
        assert forall|m: SnapshotMetadata| m.wf() && s@ == #[trigger] spec_encode(&m) implies arr is Some
            && arr.unwrap().0.deep_view() == m.subvolumes.deep_view() && arr.unwrap().1 as int
            == jd + spec_arr(m.subvolumes.deep_view()).len() by {}
    }
    let (subvolumes, je) = match arr {
        Some(p) => p,
        None => {
            return Err(SnapshotError::MetadataCorrupt);
        },
    };
    proof {
        assert forall|m: SnapshotMetadata| m.wf() && s@ == #[trigger] spec_encode(&m) implies je + 2 == n && v@.subrange(
            je as int,
            je as int + 2,
        ) == "\n}"@ by {
            lemma_key_lits();
            assert(spec_encode(&m) =~= spec_prologue(&m) + "  \"subvolumes\": "@ + spec_arr(
                m.subvolumes.deep_view(),
            ) + "\n}"@);
            assert(n == spec_encode(&m).len());
            assert(v@.subrange(je as int, je as int + 2) =~= "\n}"@) by {
                assert forall|t: int| 0 <= t < 2 implies v@.subrange(je as int, je as int + 2)[t]
                    == "\n}"@[t] by {
                    assert(v@[je + t] == spec_encode(&m)[je + t]);
                }
            }
        }
    }
    let jz = match expect_lit(&v, je, "\n}") {
        Some(j) => j,
        None => {
            return Err(SnapshotError::MetadataCorrupt);
        },
    };
    if jz != n {
        proof {
            assert forall|m: SnapshotMetadata| m.wf() && s@ == #[trigger] spec_encode(&m) implies false by {
                lemma_key_lits();
            }
        }
        return Err(SnapshotError::MetadataCorrupt);
    }
    let m2 = SnapshotMetadata { uuid: id, name, description, creation_time: ct, subvolumes };
    proof {
        assert(v@.subrange(0, jz as int) =~= v@.subrange(0, jy as int) + v@.subrange(
            jy as int,
            jd as int,
        ) + v@.subrange(jd as int, je as int) + v@.subrange(je as int, jz as int));
        assert(v@.subrange(0, n as int) =~= v@);
        assert(spec_name_part(&m2) == (match m2.name {
            Some(nm) => "  \"name\": "@ + spec_jstr(nm@) + ",\n"@,
            None => Seq::<char>::empty(),
        }));
        assert(s@ =~= spec_encode(&m2));
    }
    Ok(m2)
}

} // verus!
