use vstd::prelude::*;

verus! {

broadcast use vstd::std_specs::vec::group_vec_axioms, vstd::seq::group_seq_axioms;

// ============================================================================
// The structured value carried by every message body: a tree of null, bool,
// integer, string, array and object nodes. The scaffold inspects only the
// handshake-significant fields of such trees; everything else is opaque
// payload for the application.
// ============================================================================

/// An opaque JSON payload value: numbers are integers, strings carry any
/// text.
#[derive(Debug, PartialEq, Eq)]
pub enum JsonValue {
    Null,
    Bool(bool),
    Int(i64),
    Str(String),
    Array(Vec<JsonValue>),
    Object(Vec<(String, JsonValue)>),
}

/// The mathematical model of a `JsonValue`.
#[verifier::ext_equal]
pub enum JsonV {
    Null,
    Bool(bool),
    Int(int),
    Str(Seq<char>),
    Arr(Seq<JsonV>),
    Obj(Seq<(Seq<char>, JsonV)>),
}

/// The model of an executable JSON value.
pub open spec fn jv(v: JsonValue) -> JsonV
    decreases v, 0int,
{
    match v {
        JsonValue::Null => JsonV::Null,
        JsonValue::Bool(b) => JsonV::Bool(b),
        JsonValue::Int(i) => JsonV::Int(i as int),
        JsonValue::Str(s) => JsonV::Str(s@),
        JsonValue::Array(items) => JsonV::Arr(jv_seq(items@, 0)),
        JsonValue::Object(fields) => JsonV::Obj(jv_obj(fields@, 0)),
    }
}

pub open spec fn jv_seq(s: Seq<JsonValue>, i: int) -> Seq<JsonV>
    decreases s, s.len() - i,
{
    if i < 0 || i >= s.len() {
        Seq::empty()
    } else {
        seq![jv(s[i])] + jv_seq(s, i + 1)
    }
}

pub open spec fn jv_obj(s: Seq<(String, JsonValue)>, i: int) -> Seq<(Seq<char>, JsonV)>
    decreases s, s.len() - i,
{
    if i < 0 || i >= s.len() {
        Seq::empty()
    } else {
        seq![(s[i].0@, jv(s[i].1))] + jv_obj(s, i + 1)
    }
}

pub proof fn lemma_jv_seq(s: Seq<JsonValue>, i: int)
    requires
        0 <= i <= s.len(),
    ensures
        jv_seq(s, i).len() == s.len() - i,
        forall|k: int| 0 <= k < s.len() - i ==> jv_seq(s, i)[k] == jv(s[i + k]),
    decreases s.len() - i,
{
    if i < s.len() {
        lemma_jv_seq(s, i + 1);
    }
}

pub proof fn lemma_jv_obj(s: Seq<(String, JsonValue)>, i: int)
    requires
        0 <= i <= s.len(),
    ensures
        jv_obj(s, i).len() == s.len() - i,
        forall|k: int| 0 <= k < s.len() - i ==> jv_obj(s, i)[k] == (s[i + k].0@, jv(
            s[i + k].1,
        )),
    decreases s.len() - i,
{
    if i < s.len() {
        lemma_jv_obj(s, i + 1);
    }
}

// ============================================================================
// Representable values: every executable value is one; at the model level the
// only bound is that integers fit a 64-bit signed word.
// ============================================================================

/// A value the encoder can put on the wire: integers in `i64` range.
pub open spec fn wf_json(v: JsonV) -> bool
    decreases v, 0int,
{
    match v {
        JsonV::Null => true,
        JsonV::Bool(_) => true,
        JsonV::Int(i) => i64::MIN <= i <= i64::MAX,
        JsonV::Str(_) => true,
        JsonV::Arr(s) => wf_json_seq(s, 0),
        JsonV::Obj(s) => wf_json_obj(s, 0),
    }
}

pub open spec fn wf_json_seq(s: Seq<JsonV>, i: int) -> bool
    decreases s, s.len() - i,
{
    if i < 0 || i >= s.len() {
        true
    } else {
        wf_json(s[i]) && wf_json_seq(s, i + 1)
    }
}

pub open spec fn wf_json_obj(s: Seq<(Seq<char>, JsonV)>, i: int) -> bool
    decreases s, s.len() - i,
{
    if i < 0 || i >= s.len() {
        true
    } else {
        wf_json(s[i].1) && wf_json_obj(s, i + 1)
    }
}

pub proof fn lemma_wf_json_seq(s: Seq<JsonV>, i: int)
    requires
        0 <= i <= s.len(),
        wf_json_seq(s, 0),
    ensures
        wf_json_seq(s, i),
        forall|k: int| i <= k < s.len() ==> wf_json(s[k]),
    decreases s.len() - i,
{
    if i < s.len() {
        lemma_wf_json_seq_step(s, 0, i);
        lemma_wf_json_seq(s, i + 1);
    }
}

proof fn lemma_wf_json_seq_step(s: Seq<JsonV>, j: int, i: int)
    requires
        0 <= j <= i < s.len(),
        wf_json_seq(s, j),
    ensures
        wf_json(s[i]),
        wf_json_seq(s, i),
    decreases i - j,
{
    if j < i {
        lemma_wf_json_seq_step(s, j + 1, i);
    }
}

pub proof fn lemma_wf_json_obj(s: Seq<(Seq<char>, JsonV)>, i: int)
    requires
        0 <= i <= s.len(),
        wf_json_obj(s, 0),
    ensures
        wf_json_obj(s, i),
        forall|k: int| i <= k < s.len() ==> wf_json(#[trigger] s[k].1),
    decreases s.len() - i,
{
    if i < s.len() {
        lemma_wf_json_obj_step(s, 0, i);
        lemma_wf_json_obj(s, i + 1);
    }
}

proof fn lemma_wf_json_obj_step(s: Seq<(Seq<char>, JsonV)>, j: int, i: int)
    requires
        0 <= j <= i < s.len(),
        wf_json_obj(s, j),
    ensures
        wf_json(s[i].1),
        wf_json_obj(s, i),
    decreases i - j,
{
    if j < i {
        lemma_wf_json_obj_step(s, j + 1, i);
    }
}

// ============================================================================
// The canonical serialization: compact JSON, no whitespace, decimal
// integers; inside strings the five short escapes, hex escapes for the
// other control characters, and plain UTF-8 for everything else.
// ============================================================================

/// Decimal digits of `n`, most significant first.
pub open spec fn dec_digits(n: nat) -> Seq<u8>
    decreases n,
{
    if n < 10 {
        seq![(n + 48) as u8]
    } else {
        dec_digits(n / 10).push((n % 10 + 48) as u8)
    }
}

pub open spec fn ser_int(i: int) -> Seq<u8> {
    if i < 0 {
        seq![45u8] + dec_digits((-i) as nat)
    } else {
        dec_digits(i as nat)
    }
}

/// The lowercase hex digit for a value below sixteen.
pub open spec fn hex_char(n: u32) -> u8 {
    if n < 10 {
        (48 + n) as u8
    } else {
        (87 + n) as u8
    }
}

/// The bytes a single character contributes inside a string literal.
pub open spec fn esc_char(c: char) -> Seq<u8> {
    if c == '"' {
        seq![92u8, 34u8]
    } else if c == '\\' {
        seq![92u8, 92u8]
    } else if c == '\n' {
        seq![92u8, 110u8]
    } else if c == '\r' {
        seq![92u8, 114u8]
    } else if c == '\t' {
        seq![92u8, 116u8]
    } else if ' ' > c {
        seq![92u8, 117u8, 48u8, 48u8, hex_char((c as u32) / 16), hex_char((c as u32) % 16)]
    } else if c <= '\u{7f}' {
        seq![c as u8]
    } else {
        vstd::utf8::encode_scalar(c as u32)
    }
}

/// The escaped bytes of the first `i` characters of `s`.
pub open spec fn esc(s: Seq<char>, i: int) -> Seq<u8>
    decreases i,
{
    if i <= 0 {
        Seq::empty()
    } else {
        esc(s, i - 1) + esc_char(s[i - 1])
    }
}

pub open spec fn ser_string(s: Seq<char>) -> Seq<u8> {
    seq![34u8] + esc(s, s.len() as int) + seq![34u8]
}

/// The canonical serialization of a value.
pub open spec fn ser_json(v: JsonV) -> Seq<u8>
    decreases v, 0int,
{
    match v {
        JsonV::Null => seq![110u8, 117u8, 108u8, 108u8],
        JsonV::Bool(b) => if b {
            seq![116u8, 114u8, 117u8, 101u8]
        } else {
            seq![102u8, 97u8, 108u8, 115u8, 101u8]
        },
        JsonV::Int(i) => ser_int(i),
        JsonV::Str(s) => ser_string(s),
        JsonV::Arr(s) => seq![91u8] + ser_items(s, s.len() as int) + seq![93u8],
        JsonV::Obj(s) => seq![123u8] + ser_fields(s, s.len() as int) + seq![125u8],
    }
}

/// The serialization of the first `i` items of an array, commas between them.
pub open spec fn ser_items(s: Seq<JsonV>, i: int) -> Seq<u8>
    decreases s, i,
{
    if i <= 0 || i > s.len() {
        Seq::empty()
    } else {
        ser_items(s, i - 1) + (if i - 1 > 0 {
            seq![44u8]
        } else {
            Seq::empty()
        }) + ser_json(s[i - 1])
    }
}

/// The serialization of the first `i` fields of an object.
pub open spec fn ser_fields(s: Seq<(Seq<char>, JsonV)>, i: int) -> Seq<u8>
    decreases s, i,
{
    if i <= 0 || i > s.len() {
        Seq::empty()
    } else {
        ser_fields(s, i - 1) + (if i - 1 > 0 {
            seq![44u8]
        } else {
            Seq::empty()
        }) + ser_string(s[i - 1].0) + seq![58u8] + ser_json(s[i - 1].1)
    }
}

// ============================================================================
// The executable encoder, verified to emit exactly the canonical bytes.
// ============================================================================

pub(crate) fn write_u64(n: u64, out: &mut Vec<u8>)
    ensures
        final(out)@ == old(out)@ + dec_digits(n as nat),
    decreases n,
{
    if n < 10 {
        out.push((n as u8) + 48);
        assert(out@ =~= old(out)@ + dec_digits(n as nat));
    } else {
        write_u64(n / 10, out);
        out.push(((n % 10) as u8) + 48);
        assert(out@ =~= old(out)@ + dec_digits(n as nat));
    }
}

fn write_i64(i: i64, out: &mut Vec<u8>)
    ensures
        final(out)@ == old(out)@ + ser_int(i as int),
{
    if i >= 0 {
        write_u64(i as u64, out);
    } else {
        out.push(45);
        let mag: u64 = (-(i as i128)) as u64;
        write_u64(mag, out);
        assert(out@ =~= old(out)@ + ser_int(i as int));
    }
}

#[verifier::loop_isolation(false)]
#[verifier::rlimit(60)]
fn write_string(s: &String, out: &mut Vec<u8>)
    ensures
        final(out)@ == old(out)@ + ser_string(s@),
{
    out.push(34);
    let n = s.as_str().unicode_len();
    let mut k: usize = 0;
    while k < n
        invariant
            n == s@.len(),
            0 <= k <= n,
            out@ == old(out)@ + seq![34u8] + esc(s@, k as int),
        decreases n - k,
    {
        let c = s.as_str().get_char(k);
        if c == '"' {
            out.push(92);
            out.push(34);
        } else if c == '\\' {
            out.push(92);
            out.push(92);
        } else if c == '\n' {
            out.push(92);
            out.push(110);
        } else if c == '\r' {
            out.push(92);
            out.push(114);
        } else if c == '\t' {
            out.push(92);
            out.push(116);
        } else if ' ' > c {
            // a control character: spelled as a hex escape
            let u: u32 = c as u32;
            out.push(92);
            out.push(117);
            out.push(48);
            out.push(48);
            let hi: u32 = u / 16;
            let lo: u32 = u % 16;
            out.push(if hi < 10 {
                (48 + hi) as u8
            } else {
                (87 + hi) as u8
            });
            out.push(if lo < 10 {
                (48 + lo) as u8
            } else {
                (87 + lo) as u8
            });
        } else if c <= '\u{7f}' {
            out.push(c as u8);
        } else {
            // multi-byte text: emitted as its own encoding bytes
            let u: u32 = c as u32;
            if u < 0x80 {
                out.push((u & 0x7F) as u8);
            } else if u < 0x800 {
                proof {
                    assert(((u >> 6u32) & 0x1Fu32) < 256 && (u & 0x3Fu32) < 256) by (bit_vector);
                }
                out.push(0xC0u8 | (((u >> 6u32) & 0x1Fu32) as u8));
                out.push(0x80u8 | ((u & 0x3Fu32) as u8));
            } else if u < 0x10000 {
                proof {
                    assert(((u >> 12u32) & 0x0Fu32) < 256 && ((u >> 6u32) & 0x3Fu32) < 256 && (u
                        & 0x3Fu32) < 256) by (bit_vector);
                }
                out.push(0xE0u8 | (((u >> 12u32) & 0x0Fu32) as u8));
                out.push(0x80u8 | (((u >> 6u32) & 0x3Fu32) as u8));
                out.push(0x80u8 | ((u & 0x3Fu32) as u8));
            } else {
                proof {
                    assert(((u >> 18u32) & 0x7u32) < 256 && ((u >> 12u32) & 0x3Fu32) < 256 && ((u
                        >> 6u32) & 0x3Fu32) < 256 && (u & 0x3Fu32) < 256) by (bit_vector);
                }
                out.push(0xF0u8 | (((u >> 18u32) & 0x7u32) as u8));
                out.push(0x80u8 | (((u >> 12u32) & 0x3Fu32) as u8));
                out.push(0x80u8 | (((u >> 6u32) & 0x3Fu32) as u8));
                out.push(0x80u8 | ((u & 0x3Fu32) as u8));
            }
        }
        assert(out@ =~= old(out)@ + seq![34u8] + esc(s@, k + 1));
        k = k + 1;
    }
    out.push(34);
    assert(out@ =~= old(out)@ + ser_string(s@));
}

/// Appends the canonical serialization of `v` to `out`.
#[verifier::loop_isolation(false)]
#[verifier::rlimit(100)]
pub fn write_json(v: &JsonValue, out: &mut Vec<u8>)
    requires
        wf_json(jv(*v)),
    ensures
        final(out)@ == old(out)@ + ser_json(jv(*v)),
    decreases *v,
{
    match v {
        JsonValue::Null => {
            out.push(110);
            out.push(117);
            out.push(108);
            out.push(108);
            assert(out@ =~= old(out)@ + ser_json(jv(*v)));
        },
        JsonValue::Bool(b) => {
            if *b {
                out.push(116);
                out.push(114);
                out.push(117);
                out.push(101);
            } else {
                out.push(102);
                out.push(97);
                out.push(108);
                out.push(115);
                out.push(101);
            }
            assert(out@ =~= old(out)@ + ser_json(jv(*v)));
        },
        JsonValue::Int(i) => {
            write_i64(*i, out);
        },
        JsonValue::Str(s) => {
            write_string(s, out);
        },
        JsonValue::Array(items) => {
            let ghost a = jv_seq(items@, 0);
            proof {
                lemma_jv_seq(items@, 0);
            }
            out.push(91);
            let mut k: usize = 0;
            while k < items.len()
                invariant
                    a == jv_seq(items@, 0),
                    a.len() == items@.len(),
                    forall|j: int| 0 <= j < a.len() ==> a[j] == jv(items@[j]),
                    wf_json(JsonV::Arr(a)),
                    0 <= k <= items.len(),
                    out@ == old(out)@ + seq![91u8] + ser_items(a, k as int),
                decreases items.len() - k,
            {
                if k > 0 {
                    out.push(44);
                }
                proof {
                    lemma_wf_json_seq(a, k as int);
                    assert(*v == JsonValue::Array(*items));
                    assert(decreases_to!(JsonValue::Array(*items) => *items));
                    assert(decreases_to!(*items => items@));
                    assert(decreases_to!(items@ => items@[k as int]));
                }
                write_json(&items[k], out);
                assert(out@ =~= old(out)@ + seq![91u8] + ser_items(a, k + 1));
                k = k + 1;
            }
            out.push(93);
            assert(out@ =~= old(out)@ + ser_json(jv(*v)));
        },
        JsonValue::Object(fields) => {
            let ghost a = jv_obj(fields@, 0);
            proof {
                lemma_jv_obj(fields@, 0);
            }
            out.push(123);
            let mut k: usize = 0;
            while k < fields.len()
                invariant
                    a == jv_obj(fields@, 0),
                    a.len() == fields@.len(),
                    forall|j: int| 0 <= j < a.len() ==> a[j] == (fields@[j].0@, jv(
                        fields@[j].1,
                    )),
                    wf_json(JsonV::Obj(a)),
                    0 <= k <= fields.len(),
                    out@ == old(out)@ + seq![123u8] + ser_fields(a, k as int),
                decreases fields.len() - k,
            {
                if k > 0 {
                    out.push(44);
                }
                proof {
                    lemma_wf_json_obj(a, k as int);
                    assert(*v == JsonValue::Object(*fields));
                    assert(decreases_to!(JsonValue::Object(*fields) => *fields));
                    assert(decreases_to!(*fields => fields@));
                    assert(decreases_to!(fields@ => fields@[k as int]));
                    assert(decreases_to!(fields@[k as int] => fields@[k as int].1));
                }
                write_string(&fields[k].0, out);
                out.push(58);
                write_json(&fields[k].1, out);
                assert(out@ =~= old(out)@ + seq![123u8] + ser_fields(a, k + 1));
                k = k + 1;
            }
            out.push(125);
            assert(out@ =~= old(out)@ + ser_json(jv(*v)));
        },
    }
}

// ============================================================================
// Every executable value is representable: its model satisfies `wf_json`.
// ============================================================================

pub proof fn lemma_jv_wf(v: JsonValue)
    ensures
        wf_json(jv(v)),
    decreases v, 0int,
{
    match v {
        JsonValue::Array(items) => {
            assert(decreases_to!(JsonValue::Array(items) => items));
            assert(decreases_to!(items => items@));
            lemma_jv_wf_seq(items@, 0);
        },
        JsonValue::Object(fields) => {
            assert(decreases_to!(JsonValue::Object(fields) => fields));
            assert(decreases_to!(fields => fields@));
            lemma_jv_wf_obj(fields@, 0);
        },
        _ => {},
    }
}

proof fn lemma_jv_wf_seq(s: Seq<JsonValue>, i: int)
    requires
        0 <= i <= s.len(),
    ensures
        wf_json_seq(jv_seq(s, 0), i),
    decreases s, s.len() - i,
{
    lemma_jv_seq(s, 0);
    if i < s.len() {
        lemma_jv_wf(s[i]);
        lemma_jv_wf_seq(s, i + 1);
    }
}

proof fn lemma_jv_wf_obj(s: Seq<(String, JsonValue)>, i: int)
    requires
        0 <= i <= s.len(),
    ensures
        wf_json_obj(jv_obj(s, 0), i),
    decreases s, s.len() - i,
{
    lemma_jv_obj(s, 0);
    if i < s.len() {
        assert(decreases_to!(s[i] => s[i].1));
        lemma_jv_wf(s[i].1);
        lemma_jv_wf_obj(s, i + 1);
    }
}

} // verus!
