use vstd::prelude::*;

use crate::json::JsonV;
use crate::json::JsonValue;
use crate::json::dec_digits;
use crate::json::esc;
use crate::json::esc_char;
use crate::json::hex_char;
use crate::json::jv;
use crate::json::jv_obj;
use crate::json::jv_seq;
use crate::json::lemma_jv_obj;
use crate::json::lemma_jv_seq;
use crate::json::lemma_wf_json_obj;
use crate::json::lemma_wf_json_seq;
use crate::json::ser_fields;
use crate::json::ser_int;
use crate::json::ser_items;
use crate::json::ser_json;
use crate::json::ser_string;
use crate::json::wf_json;

verus! {

broadcast use vstd::std_specs::vec::group_vec_axioms, vstd::seq::group_seq_axioms;

// ============================================================================
// Where canonical bytes lie inside an input window.
// ============================================================================

pub open spec fn is_digit(b: u8) -> bool {
    48 <= b <= 57
}

pub open spec fn is_ws(b: u8) -> bool {
    b == 32 || b == 9 || b == 10 || b == 13
}

/// `t` lies in `s` at position `i`, inside the window that ends at `end`.
pub open spec fn bytes_at(s: Seq<u8>, i: int, t: Seq<u8>, end: int) -> bool {
    &&& 0 <= i
    &&& i + t.len() <= end <= s.len()
    &&& s.subrange(i, i + t.len()) == t
}

/// The canonical serialization of `vm` lies at `i`, and a number ending there
/// would not run on into the byte that follows.
pub open spec fn parses_to(s: Seq<u8>, i: int, end: int, vm: JsonV) -> bool {
    &&& wf_json(vm)
    &&& bytes_at(s, i, ser_json(vm), end)
    &&& (i + ser_json(vm).len() == end || !is_digit(s[i + ser_json(vm).len()]))
}

/// The canonical serialization of the string `sm` lies at `i`.
pub open spec fn string_at(s: Seq<u8>, i: int, end: int, sm: Seq<char>) -> bool {
    bytes_at(s, i, ser_string(sm), end)
}

/// The decimal digits of `n` lie at `i`, with no digit following them.
pub open spec fn digits_at(s: Seq<u8>, i: int, end: int, n: nat) -> bool {
    &&& bytes_at(s, i, dec_digits(n), end)
    &&& (i + dec_digits(n).len() == end || !is_digit(s[i + dec_digits(n).len()]))
}

/// The canonical serialization of the integer `iv` lies at `i`.
pub open spec fn int_at(s: Seq<u8>, i: int, end: int, iv: int) -> bool {
    &&& i64::MIN <= iv <= i64::MAX
    &&& bytes_at(s, i, ser_int(iv), end)
    &&& (i + ser_int(iv).len() == end || !is_digit(s[i + ser_int(iv).len()]))
}

proof fn lemma_at_index(s: Seq<u8>, i: int, t: Seq<u8>, end: int, k: int)
    requires
        bytes_at(s, i, t, end),
        0 <= k < t.len(),
    ensures
        s[i + k] == t[k],
{
    assert(s.subrange(i, i + t.len())[k] == t[k]);
}

proof fn lemma_at_split(s: Seq<u8>, i: int, t1: Seq<u8>, t2: Seq<u8>, end: int)
    requires
        bytes_at(s, i, t1 + t2, end),
    ensures
        bytes_at(s, i, t1, end),
        bytes_at(s, i + t1.len(), t2, end),
{
    assert forall|k: int| 0 <= k < t1.len() implies s.subrange(i, i + t1.len() as int)[k]
        == t1[k] by {
        lemma_at_index(s, i, t1 + t2, end, k);
    }
    assert(s.subrange(i, i + t1.len() as int) =~= t1);
    let j = i + t1.len();
    assert forall|k: int| 0 <= k < t2.len() implies s.subrange(j, j + t2.len() as int)[k]
        == t2[k] by {
        lemma_at_index(s, i, t1 + t2, end, t1.len() + k);
    }
    assert(s.subrange(j, j + t2.len() as int) =~= t2);
}

// ============================================================================
// Facts about the canonical forms: digits, first bytes, decompositions.
// ============================================================================

pub(crate) proof fn lemma_dec_digits(n: nat)
    ensures
        dec_digits(n).len() >= 1,
        forall|k: int| 0 <= k < dec_digits(n).len() ==> is_digit(#[trigger] dec_digits(n)[k]),
    decreases n,
{
    if n >= 10 {
        lemma_dec_digits(n / 10);
    }
}

/// The numeric value read off a digit string, most significant first.
pub open spec fn num_of(s: Seq<u8>) -> int
    decreases s.len(),
{
    if s.len() == 0 {
        0
    } else {
        num_of(s.drop_last()) * 10 + (s.last() - 48)
    }
}

proof fn lemma_num_dec(n: nat)
    ensures
        num_of(dec_digits(n)) == n,
    decreases n,
{
    if n < 10 {
        assert(dec_digits(n) =~= seq![(n + 48) as u8]);
        assert(dec_digits(n).drop_last() =~= Seq::<u8>::empty());
        assert(num_of(Seq::<u8>::empty()) == 0);
        assert(dec_digits(n).last() == (n + 48) as u8);
        assert(num_of(dec_digits(n)) == 0 * 10 + ((n + 48) as u8 - 48));
    } else {
        lemma_num_dec(n / 10);
        assert(dec_digits(n) == dec_digits(n / 10).push((n % 10 + 48) as u8));
        assert(dec_digits(n).drop_last() =~= dec_digits(n / 10));
        assert(dec_digits(n).last() == (n % 10 + 48) as u8);
        assert(dec_digits(n).len() > 0);
        assert(num_of(dec_digits(n)) == num_of(dec_digits(n / 10)) * 10 + ((n % 10 + 48) as u8
            - 48));
        assert((n % 10 + 48) as u8 - 48 == n % 10);
        vstd::arithmetic::div_mod::lemma_fundamental_div_mod(n as int, 10);
        assert(num_of(dec_digits(n)) == (n / 10) * 10 + n % 10);
    }
}

proof fn lemma_num_nonneg(s: Seq<u8>)
    requires
        forall|k: int| 0 <= k < s.len() ==> is_digit(#[trigger] s[k]),
    ensures
        num_of(s) >= 0,
    decreases s.len(),
{
    if s.len() > 0 {
        assert(forall|k: int|
            0 <= k < s.drop_last().len() ==> is_digit(#[trigger] s.drop_last()[k]));
        lemma_num_nonneg(s.drop_last());
    }
}

proof fn lemma_num_take_succ(s: Seq<u8>, j: int)
    requires
        0 <= j < s.len(),
    ensures
        num_of(s.take(j + 1)) == num_of(s.take(j)) * 10 + (s[j] - 48),
{
    assert(s.take(j + 1).drop_last() =~= s.take(j));
    assert(s.take(j + 1).last() == s[j]);
}

proof fn lemma_num_take_le(s: Seq<u8>, j: int)
    requires
        forall|k: int| 0 <= k < s.len() ==> is_digit(#[trigger] s[k]),
        0 <= j <= s.len(),
    ensures
        num_of(s.take(j)) <= num_of(s),
        num_of(s.take(j)) >= 0,
    decreases s.len() - j,
{
    assert(forall|k: int| 0 <= k < s.take(j).len() ==> is_digit(#[trigger] s.take(j)[k]));
    lemma_num_nonneg(s.take(j));
    if j == s.len() {
        assert(s.take(j) =~= s);
    } else {
        lemma_num_take_succ(s, j);
        lemma_num_take_le(s, j + 1);
    }
}

/// Classifies a canonical serialization by its first byte.
proof fn lemma_first_byte(vm: JsonV)
    requires
        wf_json(vm),
    ensures
        ser_json(vm).len() >= 1,
        !is_ws(ser_json(vm)[0]),
        ser_json(vm)[0] != 44 && ser_json(vm)[0] != 93 && ser_json(vm)[0] != 125 && ser_json(
            vm,
        )[0] != 58,
        (vm is Null <==> ser_json(vm)[0] == 110),
        (vm is Bool <==> (ser_json(vm)[0] == 116 || ser_json(vm)[0] == 102)),
        (vm is Int <==> (ser_json(vm)[0] == 45 || is_digit(ser_json(vm)[0]))),
        (vm is Str <==> ser_json(vm)[0] == 34),
        (vm is Arr <==> ser_json(vm)[0] == 91),
        (vm is Obj <==> ser_json(vm)[0] == 123),
{
    match vm {
        JsonV::Int(i) => {
            if i < 0 {
                lemma_dec_digits((-i) as nat);
            } else {
                lemma_dec_digits(i as nat);
                assert(ser_json(vm)[0] == dec_digits(i as nat)[0]);
                assert(is_digit(dec_digits(i as nat)[0]));
            }
        },
        _ => {},
    }
}

// ============================================================================
// Whitespace.
// ============================================================================

#[verifier::loop_isolation(false)]
fn skip_ws(buf: &Vec<u8>, pos: usize, end: usize) -> (r: usize)
    requires
        pos <= end <= buf.len(),
    ensures
        pos <= r <= end,
        forall|j: int| pos <= j < r ==> is_ws(buf@[j]),
        r < end ==> !is_ws(buf@[r as int]),
{
    let mut cur: usize = pos;
    while cur < end && (buf[cur] == 32 || buf[cur] == 9 || buf[cur] == 10 || buf[cur] == 13)
        invariant
            pos <= cur <= end,
            forall|j: int| pos <= j < cur ==> is_ws(buf@[j]),
        decreases end - cur,
    {
        cur = cur + 1;
    }
    cur
}

// ============================================================================
// Numbers.
// ============================================================================

#[verifier::loop_isolation(false)]
pub(crate) fn parse_digits(buf: &Vec<u8>, pos: usize, end: usize) -> (r: Result<(u64, usize), ()>)
    requires
        pos <= end <= buf.len(),
    ensures
        r matches Ok(p) ==> pos < p.1 <= end,
        r matches Ok(p) ==> (forall|j: int| pos <= j < p.1 ==> is_digit(#[trigger] buf@[j])) && (
        p.1 == end || !is_digit(buf@[p.1 as int])),
        forall|n: nat|
            n <= u64::MAX && digits_at(buf@, pos as int, end as int, n) ==> r == Ok::<
                (u64, usize),
                (),
            >((n as u64, (pos + dec_digits(n).len()) as usize)),
{
    let ghost s = buf@;
    if pos >= end || !(48 <= buf[pos] && buf[pos] <= 57) {
        proof {
            assert forall|n: nat|
                n <= u64::MAX && digits_at(s, pos as int, end as int, n) implies false by {
                lemma_dec_digits(n);
                lemma_at_index(s, pos as int, dec_digits(n), end as int, 0);
            }
        }
        return Err(());
    }
    let mut cur: usize = pos;
    let mut acc: u64 = 0;
    while cur < end && 48 <= buf[cur] && buf[cur] <= 57
        invariant
            pos <= cur <= end,
            forall|j: int| pos <= j < cur ==> is_digit(#[trigger] s[j]),
            acc == num_of(s.subrange(pos as int, cur as int)),
        decreases end - cur,
    {
        let d: u8 = buf[cur] - 48;
        if acc > (u64::MAX - (d as u64)) / 10 {
            proof {
                assert forall|n: nat|
                    n <= u64::MAX && digits_at(s, pos as int, end as int, n) implies false by {
                    lemma_dec_digits(n);
                    let dd = dec_digits(n);
                    let j = cur - pos;
                    // the region already read is a prefix of the digits of n
                    assert(j + 1 <= dd.len()) by {
                        if j >= dd.len() {
                            // the byte just past the digits of n would be a digit
                            assert(pos + dd.len() < end);
                            assert(is_digit(s[pos + dd.len()]));
                        }
                    }
                    assert forall|k: int| 0 <= k < j + 1 implies s.subrange(
                        pos as int,
                        cur + 1,
                    )[k] == dd[k] by {
                        lemma_at_index(s, pos as int, dd, end as int, k);
                    }
                    assert(s.subrange(pos as int, cur + 1) =~= dd.take(j + 1));
                    assert(s.subrange(pos as int, cur as int) =~= dd.take(j));
                    lemma_num_take_succ(dd, j);
                    lemma_num_take_le(dd, j + 1);
                    lemma_num_dec(n);
                    assert(num_of(dd.take(j + 1)) <= n);
                    assert(acc * 10 + d <= u64::MAX);
                }
            }
            return Err(());
        }
        acc = acc * 10 + (d as u64);
        proof {
            assert(s.subrange(pos as int, cur + 1).drop_last() =~= s.subrange(
                pos as int,
                cur as int,
            ));
        }
        cur = cur + 1;
    }
    proof {
        assert forall|n: nat|
            n <= u64::MAX && digits_at(s, pos as int, end as int, n) implies Ok::<
            (u64, usize),
            (),
        >((acc, cur)) == Ok::<(u64, usize), ()>((n as u64, (pos + dec_digits(n).len()) as usize)) by {
            lemma_dec_digits(n);
            let dd = dec_digits(n);
            // the loop stopped exactly at the end of the digits of n
            assert(cur - pos <= dd.len()) by {
                if cur - pos > dd.len() {
                    assert(pos + dd.len() < end);
                    assert(is_digit(s[pos + dd.len()]));
                }
            }
            assert(cur - pos >= dd.len()) by {
                if cur - pos < dd.len() {
                    lemma_at_index(s, pos as int, dd, end as int, cur - pos);
                    assert(is_digit(s[cur as int]));
                    assert(cur < end);
                }
            }
            assert forall|k: int| 0 <= k < dd.len() implies s.subrange(pos as int, cur as int)[k]
                == dd[k] by {
                lemma_at_index(s, pos as int, dd, end as int, k);
            }
            assert(s.subrange(pos as int, cur as int) =~= dd);
            lemma_num_dec(n);
        }
    }
    Ok((acc, cur))
}

fn parse_int(buf: &Vec<u8>, pos: usize, end: usize) -> (r: Result<(i64, usize), ()>)
    requires
        pos <= end <= buf.len(),
    ensures
        r matches Ok(p) ==> pos < p.1 <= end,
        forall|iv: int|
            int_at(buf@, pos as int, end as int, iv) ==> r == Ok::<(i64, usize), ()>(
                (iv as i64, (pos + ser_int(iv).len()) as usize),
            ),
{
    let ghost s = buf@;
    if pos < end && buf[pos] == 45 {
        proof {
            assert forall|iv: int|
                int_at(s, pos as int, end as int, iv) && iv >= 0 implies false by {
                lemma_dec_digits(iv as nat);
                lemma_at_index(s, pos as int, ser_int(iv), end as int, 0);
            }
            assert forall|iv: int|
                int_at(s, pos as int, end as int, iv) && iv < 0 implies (iv as int) >= i64::MIN
                    && digits_at(s, pos as int + 1, end as int, (-iv) as nat) by {
                lemma_at_split(s, pos as int, seq![45u8], dec_digits((-iv) as nat), end as int);
            }
        }
        match parse_digits(buf, pos + 1, end) {
            Ok((mag, p)) => {
                if mag > 9223372036854775808u64 {
                    proof {
                        assert forall|iv: int|
                            int_at(s, pos as int, end as int, iv) implies false by {
                            if iv < 0 {
                                assert((-iv) as nat <= u64::MAX);
                            }
                        }
                    }
                    Err(())
                } else {
                    let i: i64 = (-(mag as i128)) as i64;
                    proof {
                        assert forall|iv: int|
                            int_at(s, pos as int, end as int, iv) implies i == iv && p == pos
                            + ser_int(iv).len() by {
                            if iv < 0 {
                                assert((-iv) as nat <= u64::MAX);
                            }
                        }
                    }
                    Ok((i, p))
                }
            },
            Err(_) => {
                proof {
                    assert forall|iv: int| int_at(s, pos as int, end as int, iv) implies false by {
                        if iv < 0 {
                            assert((-iv) as nat <= u64::MAX);
                        }
                    }
                }
                Err(())
            },
        }
    } else {
        proof {
            assert forall|iv: int|
                int_at(s, pos as int, end as int, iv) implies iv >= 0 && digits_at(
                s,
                pos as int,
                end as int,
                iv as nat,
            ) && iv <= u64::MAX by {
                lemma_first_byte(JsonV::Int(iv));
                lemma_at_index(s, pos as int, ser_int(iv), end as int, 0);
                if iv < 0 {
                    assert(s[pos as int] == 45);
                    assert(pos < end);
                }
            }
        }
        match parse_digits(buf, pos, end) {
            Ok((mag, p)) => {
                if mag > 9223372036854775807u64 {
                    proof {
                        assert forall|iv: int|
                            int_at(s, pos as int, end as int, iv) implies false by {}
                    }
                    Err(())
                } else {
                    Ok((mag as i64, p))
                }
            },
            Err(_) => {
                proof {
                    assert forall|iv: int| int_at(s, pos as int, end as int, iv) implies false by {}
                }
                Err(())
            },
        }
    }
}

// ============================================================================
// Strings.
// ============================================================================

/// Relies on `String::from_utf8`: it succeeds exactly on valid UTF-8 and
/// decodes it.
#[verifier::external_body]
fn string_from_utf8_bytes(bytes: Vec<u8>) -> (r: Result<String, ()>)
    ensures
        r is Ok ==> vstd::utf8::valid_utf8(bytes@),
        r is Err ==> !vstd::utf8::valid_utf8(bytes@),
        r matches Ok(w) ==> w@ == vstd::utf8::decode_utf8(bytes@),
{
    match String::from_utf8(bytes) {
        Ok(w) => Ok(w),
        Err(_) => Err(()),
    }
}

fn hex_digit(b: u8) -> (r: Option<u8>)
    ensures
        r matches Some(x) ==> x < 16,
        48 <= b <= 57 ==> r == Some((b - 48) as u8),
        97 <= b <= 102 ==> r == Some((b - 87) as u8),
        65 <= b <= 70 ==> r == Some((b - 55) as u8),
{
    if 48 <= b && b <= 57 {
        Some(b - 48)
    } else if 97 <= b && b <= 102 {
        Some(b - 87)
    } else if 65 <= b && b <= 70 {
        Some(b - 55)
    } else {
        None
    }
}

/// The escaped bytes of `s` from character `k` on.
pub open spec fn esc_rest(s: Seq<char>, k: int) -> Seq<u8>
    decreases s.len() - k,
{
    if k < 0 || k >= s.len() {
        Seq::empty()
    } else {
        esc_char(s[k]) + esc_rest(s, k + 1)
    }
}

proof fn lemma_esc_glue(s: Seq<char>, k: int)
    requires
        0 <= k <= s.len(),
    ensures
        esc(s, s.len() as int) == esc(s, k) + esc_rest(s, k),
    decreases s.len() - k,
{
    if k == s.len() {
        assert(esc(s, k) + esc_rest(s, k) =~= esc(s, k));
    } else {
        lemma_esc_glue(s, k + 1);
        assert(esc(s, k + 1) =~= esc(s, k) + esc_char(s[k]));
        assert(esc(s, s.len() as int) =~= esc(s, k) + esc_rest(s, k));
    }
}

/// The bytes one character of a decoded string stands for: its own encoding.
pub open spec fn raw_char(c: char) -> Seq<u8> {
    vstd::utf8::encode_scalar(c as u32)
}

/// The decoded byte form of the first `i` characters of `s`.
pub open spec fn raw_of(s: Seq<char>, i: int) -> Seq<u8>
    decreases i,
{
    if i <= 0 {
        Seq::empty()
    } else {
        raw_of(s, i - 1) + raw_char(s[i - 1])
    }
}

/// The decoded byte form of a whole string is exactly its UTF-8 encoding.
proof fn lemma_raw_glue(s: Seq<char>, k: int)
    requires
        0 <= k <= s.len(),
    ensures
        vstd::utf8::encode_utf8(s) == raw_of(s, k) + vstd::utf8::encode_utf8(
            s.subrange(k, s.len() as int),
        ),
    decreases k,
{
    if k == 0 {
        assert(s.subrange(0, s.len() as int) =~= s);
        assert(raw_of(s, 0) + vstd::utf8::encode_utf8(s) =~= vstd::utf8::encode_utf8(s));
    } else {
        lemma_raw_glue(s, k - 1);
        let tail = s.subrange(k - 1, s.len() as int);
        assert(tail.drop_first() =~= s.subrange(k, s.len() as int));
        assert(tail[0] == s[k - 1]);
        assert(vstd::utf8::encode_utf8(s) =~= raw_of(s, k) + vstd::utf8::encode_utf8(
            s.subrange(k, s.len() as int),
        ));
    }
}

/// An ASCII character encodes to the single byte of its code point.
proof fn lemma_char_byte(c: char)
    requires
        c <= '\u{7f}',
    ensures
        c as u32 <= 127,
        raw_char(c) =~= seq![c as u8],
        c as u8 == (c as u32) as u8,
{
    let cs = seq![c];
    assert(vstd::utf8::is_ascii_chars(cs)) by {
        assert(cs[0] == c);
    }
    vstd::utf8::is_ascii_chars_encode_utf8(cs);
    assert(cs.drop_first().len() == 0);
    assert(vstd::utf8::encode_utf8(cs) =~= vstd::utf8::encode_scalar(c as u32));
    let u = c as u32;
    assert(vstd::utf8::encode_scalar(u).len() == 1);
    assert(u < 0x80);
    assert((u & 0x7F) == u) by (bit_vector)
        requires
            u < 0x80,
    ;
    assert(vstd::utf8::encode_utf8(cs)[0] == cs[0] as u8);
}

/// How one character spells itself inside a canonical string literal, told
/// apart by the first byte.
proof fn lemma_esc_char_shape(c: char)
    ensures
        1 <= esc_char(c).len() <= 6,
        esc_char(c)[0] != 34,
        (esc_char(c)[0] == 92) <==> (c == '"' || c == '\\' || c == '\n' || c == '\r' || c == '\t'
            || ' ' > c),
        c == '"' ==> esc_char(c) =~= seq![92u8, 34u8] && raw_char(c) =~= seq![34u8],
        c == '\\' ==> esc_char(c) =~= seq![92u8, 92u8] && raw_char(c) =~= seq![92u8],
        c == '\n' ==> esc_char(c) =~= seq![92u8, 110u8] && raw_char(c) =~= seq![10u8],
        c == '\r' ==> esc_char(c) =~= seq![92u8, 114u8] && raw_char(c) =~= seq![13u8],
        c == '\t' ==> esc_char(c) =~= seq![92u8, 116u8] && raw_char(c) =~= seq![9u8],
        (' ' > c && !(c == '\n' || c == '\r' || c == '\t')) ==> (esc_char(c).len() == 6
            && esc_char(c)[1] == 117 && esc_char(c)[2] == 48 && esc_char(c)[3] == 48 && esc_char(
            c,
        )[4] == hex_char((c as u32) / 16) && esc_char(c)[5] == hex_char((c as u32) % 16) && (
        c as u32) < 32 && raw_char(c) =~= seq![(c as u32) as u8]),
        (' ' <= c && c <= '\u{7f}' && c != '"' && c != '\\') ==> (esc_char(c).len() == 1
            && esc_char(c)[0] == c as u8 && 32 <= esc_char(c)[0] <= 127 && esc_char(c)[0] != 92
            && raw_char(c) =~= seq![c as u8]),
        !(c <= '\u{7f}') ==> (esc_char(c) == raw_char(c) && 2 <= esc_char(c).len() <= 4 && 0xC0
            <= esc_char(c)[0] <= 0xF7 && (esc_char(c)[0] < 0xE0 <==> esc_char(c).len() == 2) && (
        0xE0 <= esc_char(c)[0] && esc_char(c)[0] < 0xF0 <==> esc_char(c).len() == 3) && (0xF0
            <= esc_char(c)[0] <==> esc_char(c).len() == 4)),
{
    let u = c as u32;
    vstd::utf8::char_is_scalar(c);
    if c == '"' || c == '\\' || c == '\n' || c == '\r' || c == '\t' {
        assert((34u32 & 0x7F) == 34 && (92u32 & 0x7F) == 92 && (10u32 & 0x7F) == 10 && (13u32
            & 0x7F) == 13 && (9u32 & 0x7F) == 9) by (bit_vector);
    } else if ' ' > c {
        assert(u < 32);
        assert((u & 0x7F) == u) by (bit_vector)
            requires
                u < 32,
        ;
    } else if c <= '\u{7f}' {
        lemma_char_byte(c);
        assert((u as u8) as u32 == u) by (bit_vector)
            requires
                u <= 127,
        ;
        if c as u8 == 34 {
            vstd::utf8::char_u32_cast(c, u);
            assert(u == 34);
            assert((34u32 as char) == '"');
            assert(false);
        }
        if c as u8 == 92 {
            vstd::utf8::char_u32_cast(c, u);
            assert(u == 92);
            assert((92u32 as char) == '\\');
            assert(false);
        }
    } else {
        assert(u > 127);
        if u < 0x800 {
            assert(0xC0 <= (0xC0u8 | (((u >> 6) & 0x1F) as u8)) && (0xC0u8 | (((u >> 6) & 0x1F)
                as u8)) < 0xE0 && (0x80u8 | ((u & 0x3F) as u8)) >= 0x80) by (bit_vector);
        } else if u < 0x10000 {
            assert((0xE0u8 | (((u >> 12) & 0x0F) as u8)) >= 0xE0 && (0xE0u8 | (((u >> 12) & 0x0F)
                as u8)) < 0xF0) by (bit_vector);
        } else {
            assert((0xF0u8 | (((u >> 18) & 0x7) as u8)) >= 0xF0 && (0xF0u8 | (((u >> 18) & 0x7)
                as u8)) <= 0xF7) by (bit_vector);
        }
    }
}

/// The parser's position inside a canonical string literal after `j`
/// characters have been read.
proof fn lemma_str_state(s: Seq<u8>, pos: int, end: int, sm: Seq<char>, j: int, cur: int)
    requires
        string_at(s, pos, end, sm),
        0 <= j <= sm.len(),
        cur == pos + 1 + esc(sm, j).len(),
    ensures
        cur < end,
        j < sm.len() ==> bytes_at(s, cur, esc_char(sm[j]), end) && cur + esc_char(sm[j]).len()
            == pos + 1 + esc(sm, j + 1).len(),
        j == sm.len() ==> s[cur] == 34 && cur + 1 == pos + ser_string(sm).len(),
{
    lemma_esc_glue(sm, j);
    let t = esc_rest(sm, j) + seq![34u8];
    assert(ser_string(sm) =~= seq![34u8] + (esc(sm, j) + t));
    lemma_at_split(s, pos, seq![34u8], esc(sm, j) + t, end);
    lemma_at_split(s, pos + 1, esc(sm, j), t, end);
    assert(bytes_at(s, cur, t, end));
    if j < sm.len() {
        assert(t =~= esc_char(sm[j]) + (esc_rest(sm, j + 1) + seq![34u8]));
        lemma_at_split(s, cur, esc_char(sm[j]), esc_rest(sm, j + 1) + seq![34u8], end);
        assert(esc(sm, j + 1) =~= esc(sm, j) + esc_char(sm[j]));
    } else {
        lemma_at_index(s, cur, t, end, 0);
    }
}

#[verifier::loop_isolation(false)]
#[verifier::rlimit(100)]
fn parse_string(buf: &Vec<u8>, pos: usize, end: usize) -> (r: Result<(String, usize), ()>)
    requires
        pos <= end <= buf.len(),
    ensures
        r matches Ok(p) ==> pos < p.1 <= end,
        forall|sm: Seq<char>|
            string_at(buf@, pos as int, end as int, sm) ==> (r matches Ok(p) && p.0@ == sm && p.1
                == pos + ser_string(sm).len()),
{
    let ghost s = buf@;
    let ghost posi = pos as int;
    let ghost endi = end as int;
    if pos >= end || buf[pos] != 34 {
        proof {
            assert forall|sm: Seq<char>| string_at(s, posi, endi, sm) implies false by {
                lemma_at_index(s, posi, ser_string(sm), endi, 0);
            }
        }
        return Err(());
    }
    let mut cur: usize = pos + 1;
    let mut out: Vec<u8> = Vec::new();
    let ghost mut j: int = 0;
    loop
        invariant
            pos + 1 <= cur <= end,
            forall|sm: Seq<char>|
                #[trigger] string_at(s, posi, endi, sm) ==> 0 <= j <= sm.len() && out@ =~= raw_of(
                    sm,
                    j,
                ) && cur == posi + 1 + esc(sm, j).len(),
        decreases end - cur,
    {
        if cur >= end {
            proof {
                assert forall|sm: Seq<char>| string_at(s, posi, endi, sm) implies false by {
                    lemma_str_state(s, posi, endi, sm, j, cur as int);
                }
            }
            return Err(());
        }
        let b: u8 = buf[cur];
        if b == 34 {
            proof {
                assert forall|sm: Seq<char>|
                    string_at(s, posi, endi, sm) implies j == sm.len() && cur + 1 == posi
                    + ser_string(sm).len() by {
                    lemma_str_state(s, posi, endi, sm, j, cur as int);
                    if j < sm.len() {
                        lemma_esc_char_shape(sm[j]);
                        lemma_at_index(s, cur as int, esc_char(sm[j]), endi, 0);
                    }
                }
            }
            let ghost ob = out@;
            match string_from_utf8_bytes(out) {
                Ok(w) => {
                    proof {
                        assert forall|sm: Seq<char>|
                            string_at(s, posi, endi, sm) implies w@ == sm by {
                            lemma_raw_glue(sm, sm.len() as int);
                            assert(sm.subrange(sm.len() as int, sm.len() as int).len() == 0);
                            assert(ob =~= vstd::utf8::encode_utf8(sm));
                            vstd::utf8::encode_utf8_decode_utf8(sm);
                        }
                    }
                    return Ok((w, cur + 1));
                },
                Err(_) => {
                    proof {
                        assert forall|sm: Seq<char>|
                            string_at(s, posi, endi, sm) implies false by {
                            lemma_raw_glue(sm, sm.len() as int);
                            assert(sm.subrange(sm.len() as int, sm.len() as int).len() == 0);
                            assert(ob =~= vstd::utf8::encode_utf8(sm));
                            vstd::utf8::encode_utf8_valid_utf8(sm);
                        }
                    }
                    return Err(());
                },
            }
        } else if b == 92 {
            if end - cur < 2 {
                proof {
                    assert forall|sm: Seq<char>| string_at(s, posi, endi, sm) implies false by {
                        lemma_str_state(s, posi, endi, sm, j, cur as int);
                        if j < sm.len() {
                            lemma_esc_char_shape(sm[j]);
                            lemma_at_index(s, cur as int, esc_char(sm[j]), endi, 0);
                        }
                    }
                }
                return Err(());
            }
            let e: u8 = buf[cur + 1];
            if e == 117 {
                // a hex escape: canonically, a control character
                proof {
                    assert forall|sm: Seq<char>|
                        string_at(s, posi, endi, sm) implies j < sm.len() && ' ' > sm[j] && !(
                    sm[j] == '\n' || sm[j] == '\r' || sm[j] == '\t') && bytes_at(
                        s,
                        cur as int,
                        esc_char(sm[j]),
                        endi,
                    ) && esc_char(sm[j]).len() == 6 by {
                        lemma_str_state(s, posi, endi, sm, j, cur as int);
                        if j < sm.len() {
                            lemma_esc_char_shape(sm[j]);
                            lemma_at_index(s, cur as int, esc_char(sm[j]), endi, 0);
                            lemma_at_index(s, cur as int, esc_char(sm[j]), endi, 1);
                        }
                    }
                }
                if end - cur < 6 {
                    proof {
                        assert forall|sm: Seq<char>|
                            string_at(s, posi, endi, sm) implies false by {
                            lemma_str_state(s, posi, endi, sm, j, cur as int);
                            if j < sm.len() {
                                lemma_esc_char_shape(sm[j]);
                                lemma_at_index(s, cur as int, esc_char(sm[j]), endi, 0);
                                lemma_at_index(s, cur as int, esc_char(sm[j]), endi, 1);
                            }
                        }
                    }
                    return Err(());
                }
                let h1 = hex_digit(buf[cur + 2]);
                let h2 = hex_digit(buf[cur + 3]);
                let h3 = hex_digit(buf[cur + 4]);
                let h4 = hex_digit(buf[cur + 5]);
                match (h1, h2, h3, h4) {
                    (Some(a), Some(b2), Some(c2), Some(d2)) => {
                        let v: u32 = (a as u32) * 4096 + (b2 as u32) * 256 + (c2 as u32) * 16 + (
                        d2 as u32);
                        proof {
                            assert forall|sm: Seq<char>|
                                string_at(s, posi, endi, sm) implies v == sm[j] as u32 && v < 32 by {
                                lemma_str_state(s, posi, endi, sm, j, cur as int);
                                if j < sm.len() {
                                    lemma_esc_char_shape(sm[j]);
                                    let u = sm[j] as u32;
                                    lemma_at_index(s, cur as int, esc_char(sm[j]), endi, 0);
                                    lemma_at_index(s, cur as int, esc_char(sm[j]), endi, 1);
                                    lemma_at_index(s, cur as int, esc_char(sm[j]), endi, 2);
                                    lemma_at_index(s, cur as int, esc_char(sm[j]), endi, 3);
                                    lemma_at_index(s, cur as int, esc_char(sm[j]), endi, 4);
                                    lemma_at_index(s, cur as int, esc_char(sm[j]), endi, 5);
                                    assert(u < 32);
                                    assert(u / 16 < 10 && u % 16 < 16);
                                    assert(s[cur + 4] == hex_char(u / 16) && s[cur + 5] == hex_char(
                                        u % 16,
                                    ));
                                    assert(hex_char(u / 16) == (48 + u / 16) as u8);
                                    assert(a == 0 && b2 == 0);
                                    assert(c2 == u / 16);
                                    if u % 16 < 10 {
                                        assert(hex_char(u % 16) == (48 + u % 16) as u8);
                                    } else {
                                        assert(hex_char(u % 16) == (87 + u % 16) as u8);
                                    }
                                    assert(d2 == u % 16);
                                    vstd::arithmetic::div_mod::lemma_fundamental_div_mod(
                                        u as int,
                                        16,
                                    );
                                }
                            }
                        }
                        if 0xD800 <= v && v < 0xE000 {
                            // a lone surrogate half; pairs are not carried
                            proof {
                                assert forall|sm: Seq<char>|
                                    string_at(s, posi, endi, sm) implies false by {}
                            }
                            return Err(());
                        }
                        let ghost ob = out@;
                        if v < 0x80 {
                            out.push(v as u8);
                        } else if v < 0x800 {
                            proof {
                                assert(((v >> 6u32) & 0x1Fu32) < 256 && (v & 0x3Fu32) < 256)
                                    by (bit_vector);
                            }
                            out.push(0xC0u8 | (((v >> 6u32) & 0x1Fu32) as u8));
                            out.push(0x80u8 | ((v & 0x3Fu32) as u8));
                        } else {
                            proof {
                                assert(((v >> 12u32) & 0x0Fu32) < 256 && ((v >> 6u32) & 0x3Fu32)
                                    < 256 && (v & 0x3Fu32) < 256) by (bit_vector);
                            }
                            out.push(0xE0u8 | (((v >> 12u32) & 0x0Fu32) as u8));
                            out.push(0x80u8 | (((v >> 6u32) & 0x3Fu32) as u8));
                            out.push(0x80u8 | ((v & 0x3Fu32) as u8));
                        }
                        proof {
                            assert forall|sm: Seq<char>|
                                string_at(s, posi, endi, sm) implies out@ =~= raw_of(sm, j + 1)
                                && cur + 6 == posi + 1 + esc(sm, j + 1).len() by {
                                lemma_str_state(s, posi, endi, sm, j, cur as int);
                                lemma_esc_char_shape(sm[j]);
                                assert((v & 0x7F) == v) by (bit_vector)
                                    requires
                                        v < 32,
                                ;
                                assert(raw_char(sm[j]) =~= seq![v as u8]);
                                assert(out@ =~= ob.push(v as u8));
                            }
                            j = j + 1;
                        }
                        cur = cur + 6;
                    },
                    _ => {
                        proof {
                            assert forall|sm: Seq<char>|
                                string_at(s, posi, endi, sm) implies false by {
                                lemma_str_state(s, posi, endi, sm, j, cur as int);
                                if j < sm.len() {
                                    lemma_esc_char_shape(sm[j]);
                                    let u = sm[j] as u32;
                                    lemma_at_index(s, cur as int, esc_char(sm[j]), endi, 0);
                                    lemma_at_index(s, cur as int, esc_char(sm[j]), endi, 1);
                                    lemma_at_index(s, cur as int, esc_char(sm[j]), endi, 2);
                                    lemma_at_index(s, cur as int, esc_char(sm[j]), endi, 3);
                                    lemma_at_index(s, cur as int, esc_char(sm[j]), endi, 4);
                                    lemma_at_index(s, cur as int, esc_char(sm[j]), endi, 5);
                                    assert(u / 16 < 10 && u % 16 < 16);
                                    assert(hex_char(u / 16) == (48 + u / 16) as u8);
                                    if u % 16 < 10 {
                                        assert(hex_char(u % 16) == (48 + u % 16) as u8);
                                    } else {
                                        assert(hex_char(u % 16) == (87 + u % 16) as u8);
                                    }
                                }
                            }
                        }
                        return Err(());
                    },
                }
            } else {
                let unescaped: u8 = if e == 34 {
                    34
                } else if e == 92 {
                    92
                } else if e == 47 {
                    47
                } else if e == 110 {
                    10
                } else if e == 114 {
                    13
                } else if e == 116 {
                    9
                } else if e == 98 {
                    8
                } else if e == 102 {
                    12
                } else {
                    proof {
                        assert forall|sm: Seq<char>|
                            string_at(s, posi, endi, sm) implies false by {
                            lemma_str_state(s, posi, endi, sm, j, cur as int);
                            if j < sm.len() {
                                lemma_esc_char_shape(sm[j]);
                                lemma_at_index(s, cur as int, esc_char(sm[j]), endi, 0);
                                lemma_at_index(s, cur as int, esc_char(sm[j]), endi, 1);
                            }
                        }
                    }
                    return Err(());
                };
                proof {
                    assert forall|sm: Seq<char>|
                        string_at(s, posi, endi, sm) implies j < sm.len() && raw_char(sm[j])
                        =~= seq![unescaped] && esc_char(sm[j]).len() == 2 by {
                        lemma_str_state(s, posi, endi, sm, j, cur as int);
                        if j < sm.len() {
                            lemma_esc_char_shape(sm[j]);
                            lemma_at_index(s, cur as int, esc_char(sm[j]), endi, 0);
                            lemma_at_index(s, cur as int, esc_char(sm[j]), endi, 1);
                        }
                    }
                }
                let ghost ob = out@;
                out.push(unescaped);
                proof {
                    assert forall|sm: Seq<char>|
                        string_at(s, posi, endi, sm) implies out@ =~= raw_of(sm, j + 1) && cur + 2
                        == posi + 1 + esc(sm, j + 1).len() by {
                        lemma_str_state(s, posi, endi, sm, j, cur as int);
                        assert(out@ == ob.push(unescaped));
                    }
                    j = j + 1;
                }
                cur = cur + 2;
            }
        } else if b >= 128 {
            if b < 0xC0 {
                // a stray continuation byte: no canonical reading has one
                proof {
                    assert forall|sm: Seq<char>| string_at(s, posi, endi, sm) implies false by {
                        lemma_str_state(s, posi, endi, sm, j, cur as int);
                        if j < sm.len() {
                            lemma_esc_char_shape(sm[j]);
                            lemma_at_index(s, cur as int, esc_char(sm[j]), endi, 0);
                        }
                    }
                }
                out.push(b);
                cur = cur + 1;
            } else {
                // multi-byte text: carried through whole
                let w: usize = if b < 0xE0 {
                    2
                } else if b < 0xF0 {
                    3
                } else {
                    4
                };
                proof {
                    assert forall|sm: Seq<char>|
                        string_at(s, posi, endi, sm) implies j < sm.len() && bytes_at(
                        s,
                        cur as int,
                        esc_char(sm[j]),
                        endi,
                    ) && esc_char(sm[j]).len() == w && esc_char(sm[j]) == raw_char(sm[j])
                        && cur + w == posi + 1 + esc(sm, j + 1).len() by {
                        lemma_str_state(s, posi, endi, sm, j, cur as int);
                        if j < sm.len() {
                            lemma_esc_char_shape(sm[j]);
                            lemma_at_index(s, cur as int, esc_char(sm[j]), endi, 0);
                        }
                    }
                }
                if end - cur < w {
                    proof {
                        assert forall|sm: Seq<char>|
                            string_at(s, posi, endi, sm) implies false by {}
                    }
                    return Err(());
                }
                let ghost ob = out@;
                out.push(buf[cur]);
                out.push(buf[cur + 1]);
                if w >= 3 {
                    out.push(buf[cur + 2]);
                }
                if w == 4 {
                    out.push(buf[cur + 3]);
                }
                proof {
                    assert forall|sm: Seq<char>|
                        string_at(s, posi, endi, sm) implies out@ =~= raw_of(sm, j + 1) by {
                        lemma_at_index(s, cur as int, esc_char(sm[j]), endi, 0);
                        lemma_at_index(s, cur as int, esc_char(sm[j]), endi, 1);
                        if w >= 3 {
                            lemma_at_index(s, cur as int, esc_char(sm[j]), endi, 2);
                        }
                        if w == 4 {
                            lemma_at_index(s, cur as int, esc_char(sm[j]), endi, 3);
                        }
                        assert(out@ =~= ob + esc_char(sm[j]));
                        assert(raw_of(sm, j + 1) =~= raw_of(sm, j) + raw_char(sm[j]));
                    }
                    j = j + 1;
                }
                cur = cur + w;
            }
        } else if b >= 32 {
            // a plain printable byte spells the character with its code point
            proof {
                assert forall|sm: Seq<char>|
                    string_at(s, posi, endi, sm) implies j < sm.len() && raw_char(sm[j]) =~= seq![
                    b,
                ] && esc_char(sm[j]).len() == 1 by {
                    lemma_str_state(s, posi, endi, sm, j, cur as int);
                    if j < sm.len() {
                        lemma_esc_char_shape(sm[j]);
                        lemma_at_index(s, cur as int, esc_char(sm[j]), endi, 0);
                    }
                }
            }
            let ghost ob = out@;
            out.push(b);
            proof {
                assert forall|sm: Seq<char>|
                    string_at(s, posi, endi, sm) implies out@ =~= raw_of(sm, j + 1) && cur + 1
                    == posi + 1 + esc(sm, j + 1).len() by {
                    lemma_str_state(s, posi, endi, sm, j, cur as int);
                    assert(out@ == ob.push(b));
                }
                j = j + 1;
            }
            cur = cur + 1;
        } else {
            // a raw control byte never stands in a string literal
            proof {
                assert forall|sm: Seq<char>| string_at(s, posi, endi, sm) implies false by {
                    lemma_str_state(s, posi, endi, sm, j, cur as int);
                    if j < sm.len() {
                        lemma_esc_char_shape(sm[j]);
                        lemma_at_index(s, cur as int, esc_char(sm[j]), endi, 0);
                    }
                }
            }
            return Err(());
        }
    }
}

// ============================================================================
// Arrays and objects: how the canonical bytes decompose around item `k`.
// ============================================================================

/// The bytes of an array's items from item `k` on, with their separators.
pub open spec fn items_rest(a: Seq<JsonV>, k: int) -> Seq<u8>
    decreases a.len() - k,
{
    if k < 0 || k >= a.len() {
        Seq::empty()
    } else {
        (if k > 0 {
            seq![44u8]
        } else {
            Seq::empty()
        }) + ser_json(a[k]) + items_rest(a, k + 1)
    }
}

/// The bytes of an object's fields from field `k` on.
pub open spec fn fields_rest(o: Seq<(Seq<char>, JsonV)>, k: int) -> Seq<u8>
    decreases o.len() - k,
{
    if k < 0 || k >= o.len() {
        Seq::empty()
    } else {
        (if k > 0 {
            seq![44u8]
        } else {
            Seq::empty()
        }) + ser_string(o[k].0) + seq![58u8] + ser_json(o[k].1) + fields_rest(o, k + 1)
    }
}

proof fn lemma_items_glue(a: Seq<JsonV>, k: int)
    requires
        0 <= k <= a.len(),
    ensures
        ser_items(a, a.len() as int) == ser_items(a, k) + items_rest(a, k),
    decreases a.len() - k,
{
    if k == a.len() {
        assert(ser_items(a, k) + items_rest(a, k) =~= ser_items(a, k));
    } else {
        lemma_items_glue(a, k + 1);
        assert(ser_items(a, k + 1) == ser_items(a, k) + (if k > 0 {
            seq![44u8]
        } else {
            Seq::<u8>::empty()
        }) + ser_json(a[k]));
        assert(ser_items(a, a.len() as int) =~= ser_items(a, k) + items_rest(a, k));
    }
}

proof fn lemma_fields_glue(o: Seq<(Seq<char>, JsonV)>, k: int)
    requires
        0 <= k <= o.len(),
    ensures
        ser_fields(o, o.len() as int) == ser_fields(o, k) + fields_rest(o, k),
    decreases o.len() - k,
{
    if k == o.len() {
        assert(ser_fields(o, k) + fields_rest(o, k) =~= ser_fields(o, k));
    } else {
        lemma_fields_glue(o, k + 1);
        assert(ser_fields(o, k + 1) == ser_fields(o, k) + (if k > 0 {
            seq![44u8]
        } else {
            Seq::<u8>::empty()
        }) + ser_string(o[k].0) + seq![58u8] + ser_json(o[k].1));
        assert(ser_fields(o, o.len() as int) =~= ser_fields(o, k) + fields_rest(o, k));
    }
}

/// How an array literal opens.
proof fn lemma_arr_start(s: Seq<u8>, pos: int, end: int, a: Seq<JsonV>)
    requires
        parses_to(s, pos, end, JsonV::Arr(a)),
    ensures
        s[pos] == 91,
        pos + 2 <= pos + ser_json(JsonV::Arr(a)).len() <= end,
        !is_ws(s[pos + 1]),
        a.len() == 0 ==> s[pos + 1] == 93 && ser_json(JsonV::Arr(a)).len() == 2,
        a.len() > 0 ==> s[pos + 1] != 93 && wf_json(a[0]),
{
    let t = ser_json(JsonV::Arr(a));
    lemma_items_glue(a, 0);
    lemma_at_index(s, pos, t, end, 0);
    lemma_at_index(s, pos, t, end, 1);
    if a.len() == 0 {
        assert(t =~= seq![91u8, 93u8]);
    } else {
        lemma_wf_json_seq(a, 0);
        lemma_first_byte(a[0]);
        assert(items_rest(a, 0) =~= ser_json(a[0]) + items_rest(a, 1));
        assert(t =~= seq![91u8] + (ser_json(a[0]) + (items_rest(a, 1) + seq![93u8])));
        assert(t[1] == ser_json(a[0])[0]);
    }
}

/// How an object literal opens.
proof fn lemma_obj_start(s: Seq<u8>, pos: int, end: int, o: Seq<(Seq<char>, JsonV)>)
    requires
        parses_to(s, pos, end, JsonV::Obj(o)),
    ensures
        s[pos] == 123,
        pos + 2 <= pos + ser_json(JsonV::Obj(o)).len() <= end,
        !is_ws(s[pos + 1]),
        o.len() == 0 ==> s[pos + 1] == 125 && ser_json(JsonV::Obj(o)).len() == 2,
        o.len() > 0 ==> s[pos + 1] == 34,
{
    let t = ser_json(JsonV::Obj(o));
    lemma_fields_glue(o, 0);
    lemma_at_index(s, pos, t, end, 0);
    lemma_at_index(s, pos, t, end, 1);
    if o.len() == 0 {
        assert(t =~= seq![123u8, 125u8]);
    } else {
        assert(fields_rest(o, 0) =~= ser_string(o[0].0) + (seq![58u8] + (ser_json(o[0].1)
            + fields_rest(o, 1))));
        assert(t =~= seq![123u8] + (ser_string(o[0].0) + (seq![58u8] + (ser_json(o[0].1) + (
        fields_rest(o, 1) + seq![125u8])))));
        assert(t[1] == ser_string(o[0].0)[0]);
    }
}

/// Where item `k` of an array lies, and what follows it.
proof fn lemma_arr_step(s: Seq<u8>, pos: int, end: int, a: Seq<JsonV>, k: int, cur: int)
    requires
        parses_to(s, pos, end, JsonV::Arr(a)),
        0 <= k < a.len(),
        cur == pos + 1 + ser_items(a, k).len() + (if k > 0 {
            1int
        } else {
            0int
        }),
    ensures
        parses_to(s, cur, end, a[k]),
        cur + ser_json(a[k]).len() < end,
        !is_ws(s[cur + ser_json(a[k]).len()]),
        k + 1 < a.len() ==> s[cur + ser_json(a[k]).len()] == 44 && cur + ser_json(a[k]).len() + 1
            == pos + 1 + ser_items(a, k + 1).len() + 1,
        k + 1 == a.len() ==> s[cur + ser_json(a[k]).len()] == 93 && cur + ser_json(a[k]).len() + 1
            == pos + ser_json(JsonV::Arr(a)).len(),
{
    let t = ser_json(JsonV::Arr(a));
    let sep: Seq<u8> = if k > 0 {
        seq![44u8]
    } else {
        Seq::empty()
    };
    lemma_items_glue(a, k);
    lemma_wf_json_seq(a, 0);
    assert(items_rest(a, k) == sep + ser_json(a[k]) + items_rest(a, k + 1));
    let tail = items_rest(a, k + 1) + seq![93u8];
    assert(t =~= (seq![91u8] + ser_items(a, k) + sep) + (ser_json(a[k]) + tail));
    lemma_at_split(s, pos, seq![91u8] + ser_items(a, k) + sep, ser_json(a[k]) + tail, end);
    lemma_at_split(s, cur, ser_json(a[k]), tail, end);
    lemma_at_index(s, cur + ser_json(a[k]).len(), tail, end, 0);
    if k + 1 < a.len() {
        assert(items_rest(a, k + 1) == seq![44u8] + ser_json(a[k + 1]) + items_rest(a, k + 2));
        assert(tail[0] == 44);
        assert(ser_items(a, k + 1) == ser_items(a, k) + sep + ser_json(a[k]));
    } else {
        assert(items_rest(a, k + 1) =~= Seq::<u8>::empty());
        assert(tail[0] == 93);
        assert(ser_items(a, a.len() as int) == ser_items(a, k) + items_rest(a, k));
    }
}

/// Where field `k` of an object lies, and what follows it.
proof fn lemma_obj_step(s: Seq<u8>, pos: int, end: int, o: Seq<(Seq<char>, JsonV)>, k: int, cur: int)
    requires
        parses_to(s, pos, end, JsonV::Obj(o)),
        0 <= k < o.len(),
        cur == pos + 1 + ser_fields(o, k).len() + (if k > 0 {
            1int
        } else {
            0int
        }),
    ensures
        string_at(s, cur, end, o[k].0),
        wf_json(o[k].1),
        s[cur + ser_string(o[k].0).len()] == 58,
        cur + ser_string(o[k].0).len() + 1 < end,
        parses_to(s, cur + ser_string(o[k].0).len() + 1, end, o[k].1),
        cur + ser_string(o[k].0).len() + 1 + ser_json(o[k].1).len() < end,
        !is_ws(s[cur + ser_string(o[k].0).len() + 1 + ser_json(o[k].1).len()]),
        k + 1 < o.len() ==> s[cur + ser_string(o[k].0).len() + 1 + ser_json(o[k].1).len()] == 44
            && cur + ser_string(o[k].0).len() + 1 + ser_json(o[k].1).len() + 1 == pos + 1
            + ser_fields(o, k + 1).len() + 1,
        k + 1 == o.len() ==> s[cur + ser_string(o[k].0).len() + 1 + ser_json(o[k].1).len()] == 125
            && cur + ser_string(o[k].0).len() + 1 + ser_json(o[k].1).len() + 1 == pos + ser_json(
            JsonV::Obj(o),
        ).len(),
{
    let t = ser_json(JsonV::Obj(o));
    let sep: Seq<u8> = if k > 0 {
        seq![44u8]
    } else {
        Seq::empty()
    };
    let kk = ser_string(o[k].0);
    let vv = ser_json(o[k].1);
    lemma_fields_glue(o, k);
    lemma_wf_json_obj(o, 0);
    assert(fields_rest(o, k) == sep + kk + seq![58u8] + vv + fields_rest(o, k + 1));
    let tail = fields_rest(o, k + 1) + seq![125u8];
    assert(t =~= (seq![123u8] + ser_fields(o, k) + sep) + (kk + (seq![58u8] + (vv + tail))));
    lemma_at_split(s, pos, seq![123u8] + ser_fields(o, k) + sep, kk + (seq![58u8] + (vv + tail)), end);
    lemma_at_split(s, cur, kk, seq![58u8] + (vv + tail), end);
    lemma_at_split(s, cur + kk.len(), seq![58u8], vv + tail, end);
    lemma_at_index(s, cur + kk.len(), seq![58u8], end, 0);
    lemma_at_split(s, cur + kk.len() + 1, vv, tail, end);
    lemma_at_index(s, cur + kk.len() + 1 + vv.len(), tail, end, 0);
    if k + 1 < o.len() {
        assert(fields_rest(o, k + 1) == seq![44u8] + ser_string(o[k + 1].0) + seq![58u8]
            + ser_json(o[k + 1].1) + fields_rest(o, k + 2));
        assert(tail[0] == 44);
        assert(ser_fields(o, k + 1) == ser_fields(o, k) + sep + kk + seq![58u8] + vv);
    } else {
        assert(fields_rest(o, k + 1) =~= Seq::<u8>::empty());
        assert(tail[0] == 125);
        assert(ser_fields(o, o.len() as int) == ser_fields(o, k) + fields_rest(o, k));
    }
}

proof fn lemma_jv_seq_snoc(s: Seq<JsonValue>)
    requires
        s.len() > 0,
    ensures
        jv_seq(s, 0) =~= jv_seq(s.drop_last(), 0).push(jv(s.last())),
{
    lemma_jv_seq(s, 0);
    lemma_jv_seq(s.drop_last(), 0);
}

proof fn lemma_jv_obj_snoc(s: Seq<(String, JsonValue)>)
    requires
        s.len() > 0,
    ensures
        jv_obj(s, 0) =~= jv_obj(s.drop_last(), 0).push((s.last().0@, jv(s.last().1))),
{
    lemma_jv_obj(s, 0);
    lemma_jv_obj(s.drop_last(), 0);
}

// ============================================================================
// The value parser. Its contract pins the result on every canonical input:
// wherever the canonical serialization of a representable value lies, the
// parser returns exactly that value and stops exactly at its end.
// ============================================================================

#[verifier::loop_isolation(false)]
#[verifier::rlimit(60)]
pub fn parse_value(buf: &Vec<u8>, pos: usize, end: usize) -> (r: Result<(JsonValue, usize), ()>)
    requires
        pos <= end <= buf.len(),
    ensures
        r matches Ok(p) ==> pos < p.1 <= end,
        forall|vm: JsonV|
            parses_to(buf@, pos as int, end as int, vm) ==> (r matches Ok(p) && jv(p.0) == vm
                && p.1 == pos + ser_json(vm).len()),
    decreases end - pos,
{
    let ghost s = buf@;
    let ghost posi = pos as int;
    let ghost endi = end as int;
    let start = skip_ws(buf, pos, end);
    proof {
        assert forall|vm: JsonV| parses_to(s, posi, endi, vm) implies start == pos && posi
            + ser_json(vm).len() <= endi && s[posi] == ser_json(vm)[0] by {
            lemma_first_byte(vm);
            lemma_at_index(s, posi, ser_json(vm), endi, 0);
        }
    }
    if start >= end {
        proof {
            assert forall|vm: JsonV| parses_to(s, posi, endi, vm) implies false by {
                lemma_first_byte(vm);
            }
        }
        return Err(());
    }
    let b: u8 = buf[start];
    if b == 110 {
        if end - start >= 4 && buf[start + 1] == 117 && buf[start + 2] == 108 && buf[start + 3]
            == 108 {
            proof {
                assert forall|vm: JsonV| parses_to(s, posi, endi, vm) implies jv(JsonValue::Null)
                    == vm && start + 4 == posi + ser_json(vm).len() by {
                    lemma_first_byte(vm);
                }
            }
            Ok((JsonValue::Null, start + 4))
        } else {
            proof {
                assert forall|vm: JsonV| parses_to(s, posi, endi, vm) implies false by {
                    lemma_first_byte(vm);
                    lemma_at_index(s, posi, ser_json(vm), endi, 1);
                    lemma_at_index(s, posi, ser_json(vm), endi, 2);
                    lemma_at_index(s, posi, ser_json(vm), endi, 3);
                }
            }
            Err(())
        }
    } else if b == 116 {
        if end - start >= 4 && buf[start + 1] == 114 && buf[start + 2] == 117 && buf[start + 3]
            == 101 {
            proof {
                assert forall|vm: JsonV| parses_to(s, posi, endi, vm) implies jv(
                    JsonValue::Bool(true),
                ) == vm && start + 4 == posi + ser_json(vm).len() by {
                    lemma_first_byte(vm);
                    lemma_at_index(s, posi, ser_json(vm), endi, 1);
                }
            }
            Ok((JsonValue::Bool(true), start + 4))
        } else {
            proof {
                assert forall|vm: JsonV| parses_to(s, posi, endi, vm) implies false by {
                    lemma_first_byte(vm);
                    lemma_at_index(s, posi, ser_json(vm), endi, 1);
                    lemma_at_index(s, posi, ser_json(vm), endi, 2);
                    lemma_at_index(s, posi, ser_json(vm), endi, 3);
                }
            }
            Err(())
        }
    } else if b == 102 {
        if end - start >= 5 && buf[start + 1] == 97 && buf[start + 2] == 108 && buf[start + 3]
            == 115 && buf[start + 4] == 101 {
            proof {
                assert forall|vm: JsonV| parses_to(s, posi, endi, vm) implies jv(
                    JsonValue::Bool(false),
                ) == vm && start + 5 == posi + ser_json(vm).len() by {
                    lemma_first_byte(vm);
                    lemma_at_index(s, posi, ser_json(vm), endi, 1);
                }
            }
            Ok((JsonValue::Bool(false), start + 5))
        } else {
            proof {
                assert forall|vm: JsonV| parses_to(s, posi, endi, vm) implies false by {
                    lemma_first_byte(vm);
                    lemma_at_index(s, posi, ser_json(vm), endi, 1);
                    lemma_at_index(s, posi, ser_json(vm), endi, 2);
                    lemma_at_index(s, posi, ser_json(vm), endi, 3);
                    lemma_at_index(s, posi, ser_json(vm), endi, 4);
                }
            }
            Err(())
        }
    } else if b == 45 || (48 <= b && b <= 57) {
        proof {
            assert forall|vm: JsonV| parses_to(s, posi, endi, vm) implies vm is Int && int_at(
                s,
                posi,
                endi,
                vm->Int_0,
            ) by {
                lemma_first_byte(vm);
            }
        }
        match parse_int(buf, start, end) {
            Ok((i, p)) => {
                proof {
                    assert forall|vm: JsonV| parses_to(s, posi, endi, vm) implies jv(
                        JsonValue::Int(i),
                    ) == vm && p == posi + ser_json(vm).len() by {
                        assert(int_at(s, posi, endi, vm->Int_0));
                    }
                }
                Ok((JsonValue::Int(i), p))
            },
            Err(_) => {
                proof {
                    assert forall|vm: JsonV| parses_to(s, posi, endi, vm) implies false by {
                        assert(int_at(s, posi, endi, vm->Int_0));
                    }
                }
                Err(())
            },
        }
    } else if b == 34 {
        proof {
            assert forall|vm: JsonV| parses_to(s, posi, endi, vm) implies vm is Str && string_at(
                s,
                posi,
                endi,
                vm->Str_0,
            ) by {
                lemma_first_byte(vm);
            }
        }
        match parse_string(buf, start, end) {
            Ok((w, p)) => {
                proof {
                    assert forall|vm: JsonV| parses_to(s, posi, endi, vm) implies jv(
                        JsonValue::Str(w),
                    ) == vm && p == posi + ser_json(vm).len() by {
                        assert(string_at(s, posi, endi, vm->Str_0));
                    }
                }
                Ok((JsonValue::Str(w), p))
            },
            Err(_) => {
                proof {
                    assert forall|vm: JsonV| parses_to(s, posi, endi, vm) implies false by {
                        assert(string_at(s, posi, endi, vm->Str_0));
                    }
                }
                Err(())
            },
        }
    } else if b == 91 {
        let mut items: Vec<JsonValue> = Vec::new();
        let mut cur: usize = skip_ws(buf, start + 1, end);
        proof {
            assert forall|a: Seq<JsonV>| parses_to(s, posi, endi, JsonV::Arr(a)) implies cur == posi
                + 1 && (a.len() == 0 ==> (cur < endi && s[cur as int] == 93)) && (a.len() > 0
                ==> !(cur < endi && s[cur as int] == 93)) by {
                lemma_arr_start(s, posi, endi, a);
            }
        }
        if cur < end && buf[cur] == 93 {
            proof {
                assert forall|vm: JsonV| parses_to(s, posi, endi, vm) implies jv(
                    JsonValue::Array(items),
                ) == vm && cur + 1 == posi + ser_json(vm).len() by {
                    lemma_first_byte(vm);
                    match vm {
                        JsonV::Arr(a) => {
                            lemma_arr_start(s, posi, endi, a);
                            assert(a.len() == 0);
                            lemma_jv_seq(items@, 0);
                            assert(jv_seq(items@, 0) =~= a);
                            assert(jv(JsonValue::Array(items)) =~= vm);
                        },
                        _ => {},
                    }
                }
            }
            return Ok((JsonValue::Array(items), cur + 1));
        }
        proof {
            assert forall|a: Seq<JsonV>| parses_to(s, posi, endi, JsonV::Arr(a)) implies items@.len()
                < a.len() && jv_seq(items@, 0) =~= a.take(items@.len() as int) && cur == posi + 1
                + ser_items(a, items@.len() as int).len() + (if items@.len() > 0 {
                1int
            } else {
                0int
            }) by {
                lemma_arr_start(s, posi, endi, a);
                lemma_jv_seq(items@, 0);
                assert(jv_seq(items@, 0) =~= a.take(0));
            }
        }
        loop
            invariant
                pos + 1 <= cur <= end,
                forall|a: Seq<JsonV>|
                    #[trigger] parses_to(s, posi, endi, JsonV::Arr(a)) ==> items@.len() < a.len() && jv_seq(
                        items@,
                        0,
                    ) =~= a.take(items@.len() as int) && cur == posi + 1 + ser_items(
                        a,
                        items@.len() as int,
                    ).len() + (if items@.len() > 0 {
                        1int
                    } else {
                        0int
                    }),
            decreases end - cur,
        {
            let ghost k = items@.len() as int;
            let ghost cur0 = cur as int;
            proof {
                assert forall|a: Seq<JsonV>| parses_to(s, posi, endi, JsonV::Arr(a)) implies
                    parses_to(s, cur0, endi, a[k]) by {
                    lemma_arr_step(s, posi, endi, a, k, cur0);
                }
            }
            let parsed = parse_value(buf, cur, end);
            let (v, c2) = match parsed {
                Ok(p) => p,
                Err(_) => {
                    proof {
                        assert forall|vm: JsonV| parses_to(s, posi, endi, vm) implies false by {
                            lemma_first_byte(vm);
                            match vm {
                                JsonV::Arr(a) => {
                                    assert(parses_to(s, cur0, endi, a[k]));
                                },
                                _ => {},
                            }
                        }
                    }
                    return Err(());
                },
            };
            let ghost gv = v;
            let ghost itemsb = items@;
            items.push(v);
            proof {
                assert forall|a: Seq<JsonV>| parses_to(s, posi, endi, JsonV::Arr(a)) implies jv_seq(
                    items@,
                    0,
                ) =~= a.take(k + 1) && c2 == cur0 + ser_json(a[k]).len() by {
                    lemma_arr_step(s, posi, endi, a, k, cur0);
                    assert(jv(gv) == a[k]);
                    lemma_jv_seq_snoc(items@);
                    assert(items@.drop_last() =~= itemsb);
                    assert(a.take(k + 1) =~= a.take(k).push(a[k]));
                }
            }
            let cur2 = skip_ws(buf, c2, end);
            proof {
                assert forall|a: Seq<JsonV>| parses_to(s, posi, endi, JsonV::Arr(a)) implies cur2
                    == c2 && (c2 as int) < endi && (k + 1 < a.len() ==> s[c2 as int] == 44) && (k
                    + 1 == a.len() ==> s[c2 as int] == 93) by {
                    lemma_arr_step(s, posi, endi, a, k, cur0);
                }
            }
            if cur2 >= end {
                proof {
                    assert forall|vm: JsonV| parses_to(s, posi, endi, vm) implies false by {
                        lemma_first_byte(vm);
                        match vm {
                            JsonV::Arr(a) => {},
                            _ => {},
                        }
                    }
                }
                return Err(());
            }
            let bb: u8 = buf[cur2];
            if bb == 44 {
                cur = cur2 + 1;
                proof {
                    assert forall|a: Seq<JsonV>| parses_to(s, posi, endi, JsonV::Arr(a)) implies
                        items@.len() < a.len() && cur == posi + 1 + ser_items(
                        a,
                        items@.len() as int,
                    ).len() + 1 by {
                        lemma_arr_step(s, posi, endi, a, k, cur0);
                        assert(k + 1 < a.len());
                        assert(ser_items(a, k + 1) == ser_items(a, k) + (if k > 0 {
                            seq![44u8]
                        } else {
                            Seq::<u8>::empty()
                        }) + ser_json(a[k]));
                    }
                }
            } else if bb == 93 {
                proof {
                    assert forall|vm: JsonV| parses_to(s, posi, endi, vm) implies jv(
                        JsonValue::Array(items),
                    ) == vm && cur2 + 1 == posi + ser_json(vm).len() by {
                        lemma_first_byte(vm);
                        match vm {
                            JsonV::Arr(a) => {
                                lemma_arr_step(s, posi, endi, a, k, cur0);
                                assert(k + 1 == a.len());
                                assert(a.take(k + 1) =~= a);
                                assert(jv(JsonValue::Array(items)) =~= vm);
                            },
                            _ => {},
                        }
                    }
                }
                return Ok((JsonValue::Array(items), cur2 + 1));
            } else {
                proof {
                    assert forall|vm: JsonV| parses_to(s, posi, endi, vm) implies false by {
                        lemma_first_byte(vm);
                        match vm {
                            JsonV::Arr(a) => {
                                lemma_arr_step(s, posi, endi, a, k, cur0);
                            },
                            _ => {},
                        }
                    }
                }
                return Err(());
            }
        }
    } else if b == 123 {
        let mut fields: Vec<(String, JsonValue)> = Vec::new();
        let mut cur: usize = skip_ws(buf, start + 1, end);
        proof {
            assert forall|o: Seq<(Seq<char>, JsonV)>| parses_to(
                s,
                posi,
                endi,
                JsonV::Obj(o),
            ) implies cur == posi + 1 && (o.len() == 0 ==> (cur < endi && s[cur as int] == 125)) && (
            o.len() > 0 ==> !(cur < endi && s[cur as int] == 125)) by {
                lemma_obj_start(s, posi, endi, o);
            }
        }
        if cur < end && buf[cur] == 125 {
            proof {
                assert forall|vm: JsonV| parses_to(s, posi, endi, vm) implies jv(
                    JsonValue::Object(fields),
                ) == vm && cur + 1 == posi + ser_json(vm).len() by {
                    lemma_first_byte(vm);
                    match vm {
                        JsonV::Obj(o) => {
                            lemma_obj_start(s, posi, endi, o);
                            assert(o.len() == 0);
                            lemma_jv_obj(fields@, 0);
                            assert(jv_obj(fields@, 0) =~= o);
                            assert(jv(JsonValue::Object(fields)) =~= vm);
                        },
                        _ => {},
                    }
                }
            }
            return Ok((JsonValue::Object(fields), cur + 1));
        }
        proof {
            assert forall|o: Seq<(Seq<char>, JsonV)>| parses_to(
                s,
                posi,
                endi,
                JsonV::Obj(o),
            ) implies fields@.len() < o.len() && jv_obj(fields@, 0) =~= o.take(
                fields@.len() as int,
            ) && cur == posi + 1 + ser_fields(o, fields@.len() as int).len() + (if fields@.len()
                > 0 {
                1int
            } else {
                0int
            }) by {
                lemma_obj_start(s, posi, endi, o);
                lemma_jv_obj(fields@, 0);
                assert(jv_obj(fields@, 0) =~= o.take(0));
            }
        }
        loop
            invariant
                pos + 1 <= cur <= end,
                forall|o: Seq<(Seq<char>, JsonV)>|
                    #[trigger] parses_to(s, posi, endi, JsonV::Obj(o)) ==> fields@.len() < o.len() && jv_obj(
                        fields@,
                        0,
                    ) =~= o.take(fields@.len() as int) && cur == posi + 1 + ser_fields(
                        o,
                        fields@.len() as int,
                    ).len() + (if fields@.len() > 0 {
                        1int
                    } else {
                        0int
                    }),
            decreases end - cur,
        {
            let ghost k = fields@.len() as int;
            let ghost cur0 = cur as int;
            proof {
                assert forall|o: Seq<(Seq<char>, JsonV)>| parses_to(
                    s,
                    posi,
                    endi,
                    JsonV::Obj(o),
                ) implies string_at(s, cur0, endi, o[k].0) by {
                    lemma_obj_step(s, posi, endi, o, k, cur0);
                }
            }
            let parsed_key = parse_string(buf, cur, end);
            let (key, c2) = match parsed_key {
                Ok(p) => p,
                Err(_) => {
                    proof {
                        assert forall|vm: JsonV| parses_to(s, posi, endi, vm) implies false by {
                            lemma_first_byte(vm);
                            match vm {
                                JsonV::Obj(o) => {
                                    assert(string_at(s, cur0, endi, o[k].0));
                                },
                                _ => {},
                            }
                        }
                    }
                    return Err(());
                },
            };
            let ghost gkey = key@;
            let c3 = skip_ws(buf, c2, end);
            proof {
                assert forall|o: Seq<(Seq<char>, JsonV)>| parses_to(
                    s,
                    posi,
                    endi,
                    JsonV::Obj(o),
                ) implies gkey == o[k].0 && c2 == cur0 + ser_string(o[k].0).len() && c3 == c2 && (
                c2 as int) < endi && s[c2 as int] == 58 && parses_to(s, c2 + 1, endi, o[k].1) by {
                    lemma_obj_step(s, posi, endi, o, k, cur0);
                }
            }
            if c3 >= end || buf[c3] != 58 {
                proof {
                    assert forall|vm: JsonV| parses_to(s, posi, endi, vm) implies false by {
                        lemma_first_byte(vm);
                        match vm {
                            JsonV::Obj(o) => {},
                            _ => {},
                        }
                    }
                }
                return Err(());
            }
            let parsed_val = parse_value(buf, c3 + 1, end);
            let (v, c4) = match parsed_val {
                Ok(p) => p,
                Err(_) => {
                    proof {
                        assert forall|vm: JsonV| parses_to(s, posi, endi, vm) implies false by {
                            lemma_first_byte(vm);
                            match vm {
                                JsonV::Obj(o) => {
                                    assert(parses_to(s, c2 + 1, endi, o[k].1));
                                },
                                _ => {},
                            }
                        }
                    }
                    return Err(());
                },
            };
            let ghost gv = v;
            let ghost fieldsb = fields@;
            fields.push((key, v));
            proof {
                assert forall|o: Seq<(Seq<char>, JsonV)>| parses_to(
                    s,
                    posi,
                    endi,
                    JsonV::Obj(o),
                ) implies jv_obj(fields@, 0) =~= o.take(k + 1) && c4 == cur0 + ser_string(
                    o[k].0,
                ).len() + 1 + ser_json(o[k].1).len() by {
                    lemma_obj_step(s, posi, endi, o, k, cur0);
                    assert(jv(gv) == o[k].1);
                    lemma_jv_obj_snoc(fields@);
                    assert(fields@.drop_last() =~= fieldsb);
                    assert(fields@.last().0@ == gkey);
                    assert(o.take(k + 1) =~= o.take(k).push(o[k]));
                }
            }
            let cur2 = skip_ws(buf, c4, end);
            proof {
                assert forall|o: Seq<(Seq<char>, JsonV)>| parses_to(
                    s,
                    posi,
                    endi,
                    JsonV::Obj(o),
                ) implies cur2 == c4 && (c4 as int) < endi && (k + 1 < o.len() ==> s[c4 as int]
                    == 44) && (k + 1 == o.len() ==> s[c4 as int] == 125) by {
                    lemma_obj_step(s, posi, endi, o, k, cur0);
                }
            }
            if cur2 >= end {
                proof {
                    assert forall|vm: JsonV| parses_to(s, posi, endi, vm) implies false by {
                        lemma_first_byte(vm);
                        match vm {
                            JsonV::Obj(o) => {},
                            _ => {},
                        }
                    }
                }
                return Err(());
            }
            let bb: u8 = buf[cur2];
            if bb == 44 {
                cur = skip_ws(buf, cur2 + 1, end);
                proof {
                    assert forall|o: Seq<(Seq<char>, JsonV)>| parses_to(
                        s,
                        posi,
                        endi,
                        JsonV::Obj(o),
                    ) implies fields@.len() < o.len() && cur == posi + 1 + ser_fields(
                        o,
                        fields@.len() as int,
                    ).len() + 1 by {
                        lemma_obj_step(s, posi, endi, o, k, cur0);
                        assert(k + 1 < o.len());
                        let nk = posi + 1 + ser_fields(o, k + 1).len() + 1;
                        lemma_obj_step(s, posi, endi, o, k + 1, nk);
                        lemma_at_index(s, nk, ser_string(o[k + 1].0), endi, 0);
                        assert(ser_string(o[k + 1].0)[0] == 34);
                        assert(s[nk] == 34);
                        assert(!is_ws(s[cur2 + 1]));
                    }
                }
            } else if bb == 125 {
                proof {
                    assert forall|vm: JsonV| parses_to(s, posi, endi, vm) implies jv(
                        JsonValue::Object(fields),
                    ) == vm && cur2 + 1 == posi + ser_json(vm).len() by {
                        lemma_first_byte(vm);
                        match vm {
                            JsonV::Obj(o) => {
                                lemma_obj_step(s, posi, endi, o, k, cur0);
                                assert(k + 1 == o.len());
                                assert(o.take(k + 1) =~= o);
                                assert(jv(JsonValue::Object(fields)) =~= vm);
                            },
                            _ => {},
                        }
                    }
                }
                return Ok((JsonValue::Object(fields), cur2 + 1));
            } else {
                proof {
                    assert forall|vm: JsonV| parses_to(s, posi, endi, vm) implies false by {
                        lemma_first_byte(vm);
                        match vm {
                            JsonV::Obj(o) => {
                                lemma_obj_step(s, posi, endi, o, k, cur0);
                            },
                            _ => {},
                        }
                    }
                }
                return Err(());
            }
        }
    } else {
        proof {
            assert forall|vm: JsonV| parses_to(s, posi, endi, vm) implies false by {
                lemma_first_byte(vm);
            }
        }
        Err(())
    }
}

/// Parses the one JSON value that spans `buf[from..to]` exactly; trailing
/// bytes other than whitespace are rejected.
pub fn parse_json(buf: &Vec<u8>, from: usize, to: usize) -> (r: Result<JsonValue, ()>)
    requires
        from <= to <= buf.len(),
    ensures
        forall|vm: JsonV|
            wf_json(vm) && buf@.subrange(from as int, to as int) == ser_json(vm) ==> (r matches Ok(
                w,
            ) && jv(w) == vm),
{
    let ghost s = buf@;
    proof {
        assert forall|vm: JsonV|
            wf_json(vm) && s.subrange(from as int, to as int) == ser_json(vm) implies parses_to(
            s,
            from as int,
            to as int,
            vm,
        ) by {
            assert(ser_json(vm).len() == to - from);
        }
    }
    match parse_value(buf, from, to) {
        Ok((v, p)) => {
            let p2 = skip_ws(buf, p, to);
            if p2 == to {
                Ok(v)
            } else {
                Err(())
            }
        },
        Err(_) => Err(()),
    }
}

} // verus!
