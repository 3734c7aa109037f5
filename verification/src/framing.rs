use vstd::prelude::*;

use crate::codec::json_to_message;
use crate::codec::message_to_json;
use crate::codec::msg_json;
use crate::error::ProtocolError;
use crate::json::dec_digits;
use crate::json::ser_json;
use crate::json::write_json;
use crate::json::write_u64;
use crate::msg::Message;
use crate::msg::MessageV;
use crate::msg::wf_msg;
use crate::parse::digits_at;
use crate::parse::is_digit;
use crate::parse::parse_digits;
use crate::parse::parse_json;

verus! {

broadcast use vstd::std_specs::vec::group_vec_axioms, vstd::seq::group_seq_axioms;

// ============================================================================
// The wire frame: an ASCII header with the body's exact byte count, a blank
// line, then the body.
// ============================================================================

/// The bytes of `Content-Length: `.
pub open spec fn cl_prefix() -> Seq<u8> {
    seq![67u8, 111u8, 110u8, 116u8, 101u8, 110u8, 116u8, 45u8, 76u8, 101u8, 110u8, 103u8, 116u8,
        104u8, 58u8, 32u8]
}

/// One frame: the length header, a blank line, then exactly that many bytes.
pub open spec fn frame(body: Seq<u8>) -> Seq<u8> {
    cl_prefix() + dec_digits(body.len()) + seq![13u8, 10u8, 13u8, 10u8] + body
}

/// The frame that carries the message `m`.
pub open spec fn msg_frame(m: MessageV) -> Seq<u8> {
    frame(ser_json(msg_json(m)))
}

/// Frames a body for the wire.
pub fn encode_frame(body: Vec<u8>) -> (out: Vec<u8>)
    ensures
        out@ == frame(body@),
{
    let mut out: Vec<u8> = Vec::new();
    out.push(67);
    out.push(111);
    out.push(110);
    out.push(116);
    out.push(101);
    out.push(110);
    out.push(116);
    out.push(45);
    out.push(76);
    out.push(101);
    out.push(110);
    out.push(103);
    out.push(116);
    out.push(104);
    out.push(58);
    out.push(32);
    proof {
        assert(out@ =~= cl_prefix());
    }
    write_u64(body.len() as u64, &mut out);
    out.push(13);
    out.push(10);
    out.push(13);
    out.push(10);
    proof {
        assert(out@ =~= cl_prefix() + dec_digits(body@.len()) + seq![13u8, 10u8, 13u8, 10u8]);
    }
    let mut k: usize = 0;
    while k < body.len()
        invariant
            0 <= k <= body.len(),
            out@ == cl_prefix() + dec_digits(body@.len()) + seq![13u8, 10u8, 13u8, 10u8]
                + body@.take(k as int),
        decreases body.len() - k,
    {
        out.push(body[k]);
        proof {
            assert(body@.take(k + 1) =~= body@.take(k as int).push(body@[k as int]));
        }
        k = k + 1;
    }
    proof {
        assert(body@.take(body@.len() as int) =~= body@);
    }
    out
}

/// Frames a representable message for the wire.
pub fn encode_message(m: Message) -> (out: Vec<u8>)
    requires
        wf_msg(m@),
    ensures
        out@ == msg_frame(m@),
{
    proof {
        crate::codec::lemma_wf_msg_json(m@);
    }
    let v = message_to_json(m);
    let mut body: Vec<u8> = Vec::new();
    write_json(&v, &mut body);
    encode_frame(body)
}

// ============================================================================
// Decoding a frame from a growing buffer of received bytes.
// ============================================================================

/// One step of decoding: more bytes are needed, one message was decoded and
/// ends at the given position, or the bytes can never begin a frame.
pub enum DecodeStep {
    NeedMore,
    Msg(Message, usize),
    Fail(ProtocolError),
}

/// A whole frame carrying `m` lies at `pos`.
pub open spec fn full_frame_at(s: Seq<u8>, pos: int, m: MessageV) -> bool {
    &&& 0 <= pos
    &&& pos + msg_frame(m).len() <= s.len()
    &&& s.subrange(pos, pos + msg_frame(m).len()) == msg_frame(m)
}

/// The bytes from `pos` to the end of the stream are a strict prefix of the
/// frame carrying `m`: the stream broke off inside the header or the body.
pub open spec fn truncated_frame_at(s: Seq<u8>, pos: int, m: MessageV) -> bool {
    &&& 0 <= pos <= s.len()
    &&& msg_frame(m).len() <= usize::MAX
    &&& s.len() - pos < msg_frame(m).len()
    &&& s.subrange(pos, s.len() as int) == msg_frame(m).take(s.len() - pos)
}

/// A frame carrying `m` lies at `pos`, whole or cut off by the end of the
/// received bytes.
pub open spec fn frame_hypo(s: Seq<u8>, pos: int, m: MessageV) -> bool {
    wf_msg(m) && (full_frame_at(s, pos, m) || truncated_frame_at(s, pos, m))
}

pub open spec fn body_of(m: MessageV) -> Seq<u8> {
    ser_json(msg_json(m))
}

pub open spec fn dl_of(m: MessageV) -> int {
    dec_digits(body_of(m).len()).len() as int
}

/// A complete `Content-Length` header line lies at `pos`: the prefix, then
/// `dlen` payload bytes free of carriage returns, then the line break.
pub open spec fn cl_line_at(s: Seq<u8>, pos: int, dlen: int) -> bool {
    &&& 0 <= pos
    &&& 0 <= dlen
    &&& pos + 16 + dlen + 2 <= s.len()
    &&& (forall|j: int| 0 <= j < 16 ==> s[pos + j] == cl_prefix()[j])
    &&& (forall|j: int| 0 <= j < dlen ==> #[trigger] s[pos + 16 + j] != 13)
    &&& s[pos + 16 + dlen] == 13
    &&& s[pos + 16 + dlen + 1] == 10
}

/// A complete `Content-Length` line whose payload is not a run of digits:
/// such a header can never carry a byte count.
pub open spec fn junk_cl_at(s: Seq<u8>, pos: int, dlen: int) -> bool {
    &&& cl_line_at(s, pos, dlen)
    &&& !(dlen > 0 && (forall|j: int| 0 <= j < dlen ==> is_digit(#[trigger] s[pos + 16 + j])))
}

proof fn lemma_hypo_byte(s: Seq<u8>, pos: int, m: MessageV, j: int)
    requires
        frame_hypo(s, pos, m),
        0 <= j < msg_frame(m).len(),
        pos + j < s.len(),
    ensures
        s[pos + j] == msg_frame(m)[j],
        msg_frame(m).len() == 16 + dl_of(m) + 4 + body_of(m).len(),
{
    lemma_frame_bytes(body_of(m));
    if full_frame_at(s, pos, m) {
        assert(s.subrange(pos, pos + msg_frame(m).len())[j] == msg_frame(m)[j]);
    } else {
        assert(s.subrange(pos, s.len() as int)[j] == msg_frame(m).take(s.len() - pos)[j]);
    }
}

/// Index facts about a frame's bytes.
proof fn lemma_frame_bytes(body: Seq<u8>)
    ensures
        frame(body).len() == 16 + dec_digits(body.len()).len() + 4 + body.len(),
        forall|j: int| 0 <= j < 16 ==> frame(body)[j] == cl_prefix()[j],
        forall|j: int|
            16 <= j < 16 + dec_digits(body.len()).len() ==> is_digit(
                #[trigger] frame(body)[j],
            ) && frame(body)[j] == dec_digits(body.len())[j - 16],
        frame(body)[16 + dec_digits(body.len()).len() as int] == 13,
        frame(body)[16 + dec_digits(body.len()).len() as int + 1] == 10,
        frame(body)[16 + dec_digits(body.len()).len() as int + 2] == 13,
        frame(body)[16 + dec_digits(body.len()).len() as int + 3] == 10,
        forall|j: int|
            0 <= j < body.len() ==> frame(body)[16 + dec_digits(body.len()).len() + 4 + j]
                == body[j],
        forall|j: int| 0 <= j < 16 + dec_digits(body.len()).len() ==> frame(body)[j] != 13,
{
    crate::parse::lemma_dec_digits(body.len());
    assert forall|j: int| 0 <= j < 16 implies frame(body)[j] == cl_prefix()[j] && frame(body)[j]
        != 13 by {}
}

/// Finds the first line break from `pos` on.
#[verifier::loop_isolation(false)]
fn find_crlf(buf: &Vec<u8>, pos: usize) -> (r: Option<usize>)
    requires
        pos <= buf.len(),
    ensures
        r matches Some(i) ==> pos <= i && i + 1 < buf.len() && buf@[i as int] == 13
            && buf@[i + 1] == 10 && (forall|j: int|
            pos <= j < i ==> !(#[trigger] buf@[j] == 13 && buf@[j + 1] == 10)),
        r is None ==> forall|j: int|
            pos <= j && j + 1 < buf@.len() ==> !(#[trigger] buf@[j] == 13 && buf@[j + 1] == 10),
{
    let n = buf.len();
    if n == 0 {
        return None;
    }
    let mut cur: usize = pos;
    while n - cur > 1
        invariant
            pos <= cur <= n,
            forall|j: int| pos <= j < cur ==> !(#[trigger] buf@[j] == 13 && buf@[j + 1] == 10),
        decreases n - cur,
    {
        if buf[cur] == 13 && buf[cur + 1] == 10 {
            return Some(cur);
        }
        cur = cur + 1;
    }
    None
}

/// Tries to decode one frame starting at `pos`. Wherever a whole frame
/// carrying a representable message lies, the decoder returns exactly that
/// message and stops exactly at the frame's end; wherever the received bytes
/// break off inside a frame's header or body, it asks for more, never
/// returning a truncated message.
#[verifier::loop_isolation(false)]
#[verifier::rlimit(100)]
pub fn decode_step(buf: &Vec<u8>, pos: usize) -> (r: DecodeStep)
    requires
        pos <= buf.len(),
    ensures
        forall|m: MessageV|
            wf_msg(m) && full_frame_at(buf@, pos as int, m) ==> (r matches DecodeStep::Msg(
                got,
                next,
            ) && got@ == m && next == pos + msg_frame(m).len()),
        forall|m: MessageV|
            wf_msg(m) && truncated_frame_at(buf@, pos as int, m) ==> r is NeedMore,
        (pos + 2 <= buf@.len() && buf@[pos as int] == 13 && buf@[pos + 1] == 10) ==> r is Fail,
        forall|dlen: int| #[trigger] junk_cl_at(buf@, pos as int, dlen) ==> r is Fail,
{
    let ghost s = buf@;
    let ghost posi = pos as int;
    let n = buf.len();
    let mut cur: usize = pos;
    let mut content_length: Option<usize> = None;
    let mut done: bool = false;
    while !done
        invariant
            pos <= cur <= n,
            !done ==> (forall|m: MessageV|
                #[trigger] frame_hypo(s, posi, m) ==> ((cur == posi && content_length is None) || (
                cur == posi + 16 + dl_of(m) + 2 && content_length == Some(
                    body_of(m).len() as usize,
                )))),
            done ==> cur + 2 <= n,
            done ==> (forall|m: MessageV|
                #[trigger] frame_hypo(s, posi, m) ==> cur == posi + 16 + dl_of(m) + 2
                    && content_length == Some(body_of(m).len() as usize)),
            (pos + 2 <= n && s[posi] == 13 && s[posi + 1] == 10) ==> (content_length is None && cur
                == pos),
            forall|dlen: int|
                #[trigger] junk_cl_at(s, posi, dlen) ==> (content_length is None && cur == pos),
        decreases (if done { 0int } else { 1int }), n - cur,
    {
        let found = find_crlf(buf, cur);
        match found {
            None => {
                proof {
                    assert forall|m: MessageV|
                        wf_msg(m) && #[trigger] full_frame_at(s, posi, m) implies false by {
                        assert(frame_hypo(s, posi, m));
                        lemma_frame_bytes(body_of(m));
                        if cur == posi && content_length is None {
                            lemma_hypo_byte(s, posi, m, 16 + dl_of(m));
                            lemma_hypo_byte(s, posi, m, 16 + dl_of(m) + 1);
                            assert(s[posi + (16 + dl_of(m))] == 13);
                            assert(s[posi + (16 + dl_of(m)) + 1] == 10);
                        } else {
                            lemma_hypo_byte(s, posi, m, 16 + dl_of(m) + 2);
                            lemma_hypo_byte(s, posi, m, 16 + dl_of(m) + 3);
                            assert(s[cur as int] == 13);
                            assert(s[cur + 1] == 10);
                        }
                    }
                }
                proof {
                    assert(!(pos + 2 <= n && s[posi] == 13 && s[posi + 1] == 10)) by {
                        if pos + 2 <= n && s[posi] == 13 && s[posi + 1] == 10 {
                            assert(cur == pos);
                            assert(posi + 1 < n);
                            assert(s[posi] == 13 && s[posi + 1] == 10);
                        }
                    }
                    assert forall|dlen: int| #[trigger] junk_cl_at(s, posi, dlen) implies false by {
                        assert(cur == pos);
                        assert(posi + 16 + dlen + 1 < n);
                        assert(s[posi + 16 + dlen] == 13 && s[posi + 16 + dlen + 1] == 10);
                    }
                }
                return DecodeStep::NeedMore;
            },
            Some(i) => {
                if i == cur {
                    proof {
                        assert forall|m: MessageV| #[trigger] frame_hypo(s, posi, m) implies cur == posi + 16
                            + dl_of(m) + 2 && content_length == Some(
                            body_of(m).len() as usize,
                        ) by {
                            lemma_frame_bytes(body_of(m));
                            if cur == posi && content_length is None {
                                lemma_hypo_byte(s, posi, m, 0);
                                assert(s[posi + 0] == 67);
                            }
                        }
                    }
                    done = true;
                } else {
                proof {
                    assert(!(pos + 2 <= n && s[posi] == 13 && s[posi + 1] == 10)) by {
                        if pos + 2 <= n && s[posi] == 13 && s[posi + 1] == 10 {
                            assert(cur == pos);
                            assert(cur < i);
                            assert(s[posi] == 13 && s[posi + 1] == 10);
                        }
                    }
                    assert forall|k: int| 0 <= k < 16 implies cl_prefix()[k] != 13 by {}
                    assert forall|dlen: int| #[trigger] junk_cl_at(s, posi, dlen) implies cur
                        == pos && content_length is None && i == posi + 16 + dlen by {
                        if i < posi + 16 + dlen {
                            if i - posi < 16 {
                                assert(s[posi + (i - posi)] == cl_prefix()[i - posi]);
                            } else {
                                assert(s[posi + 16 + (i - posi - 16)] != 13);
                            }
                            assert(false);
                        }
                        if i > posi + 16 + dlen {
                            assert(s[posi + 16 + dlen] == 13 && s[posi + 16 + dlen + 1] == 10);
                            assert(false);
                        }
                    }
                }
                // a header line; only `Content-Length` is meaningful
                proof {
                    assert forall|m: MessageV| #[trigger] frame_hypo(s, posi, m) implies cur == posi
                        && content_length is None && i == posi + 16 + dl_of(m) && posi + 16 + dl_of(
                        m,
                    ) + 2 <= n by {
                        lemma_frame_bytes(body_of(m));
                        if cur == posi + 16 + dl_of(m) + 2 && content_length == Some(
                            body_of(m).len() as usize,
                        ) {
                            lemma_hypo_byte(s, posi, m, 16 + dl_of(m) + 2);
                            lemma_hypo_byte(s, posi, m, 16 + dl_of(m) + 3);
                            assert(s[cur as int] == 13);
                            assert(s[cur + 1] == 10);
                        }
                        // the first line break sits right after the digits
                        if i < posi + 16 + dl_of(m) {
                            lemma_hypo_byte(s, posi, m, i - posi);
                            assert(s[posi + (i - posi)] == msg_frame(m)[i - posi]);
                        } else if i > posi + 16 + dl_of(m) {
                            if posi + 16 + dl_of(m) + 1 < n {
                                lemma_hypo_byte(s, posi, m, 16 + dl_of(m));
                                lemma_hypo_byte(s, posi, m, 16 + dl_of(m) + 1);
                                assert(s[posi + (16 + dl_of(m))] == 13);
                                assert(s[posi + (16 + dl_of(m)) + 1] == 10);
                            }
                        }
                    }
                }
                if i - cur >= 16 && buf[cur] == 67 && buf[cur + 1] == 111 && buf[cur + 2] == 110
                    && buf[cur + 3] == 116 && buf[cur + 4] == 101 && buf[cur + 5] == 110 && buf[cur
                    + 6] == 116 && buf[cur + 7] == 45 && buf[cur + 8] == 76 && buf[cur + 9] == 101
                    && buf[cur + 10] == 110 && buf[cur + 11] == 103 && buf[cur + 12] == 116
                    && buf[cur + 13] == 104 && buf[cur + 14] == 58 && buf[cur + 15] == 32 {
                    proof {
                        assert forall|m: MessageV| #[trigger] frame_hypo(s, posi, m) implies body_of(
                            m,
                        ).len() <= u64::MAX && digits_at(
                            s,
                            cur + 16,
                            i as int,
                            body_of(m).len(),
                        ) by {
                            lemma_frame_bytes(body_of(m));
                            let dd = dec_digits(body_of(m).len());
                            assert forall|j: int|
                                0 <= j < dd.len() implies s.subrange(cur + 16, i as int)[j]
                                == dd[j] by {
                                lemma_hypo_byte(s, posi, m, 16 + j);
                                assert(s[posi + (16 + j)] == msg_frame(m)[16 + j]);
                            }
                            assert(s.subrange(cur + 16, i as int) =~= dd);
                        }
                    }
                    match parse_digits(buf, cur + 16, i) {
                        Ok((v, p)) => {
                            let too_big = v > (usize::MAX as u64);
                            if p != i || too_big {
                                proof {
                                    assert forall|m: MessageV|
                                        #![trigger full_frame_at(s, posi, m)]
                                        #![trigger truncated_frame_at(s, posi, m)]
                                        wf_msg(m) && (full_frame_at(s, posi, m)
                                            || truncated_frame_at(s, posi, m)) implies false by {
                                        assert(frame_hypo(s, posi, m));
                                        lemma_frame_bytes(body_of(m));
                                        assert(body_of(m).len() <= u64::MAX && digits_at(
                                            s,
                                            cur + 16,
                                            i as int,
                                            body_of(m).len(),
                                        ));
                                        assert(v == body_of(m).len());
                                        assert(p == cur + 16 + dec_digits(
                                            body_of(m).len(),
                                        ).len());
                                        if full_frame_at(s, posi, m) {
                                            assert(posi + msg_frame(m).len() <= n);
                                        }
                                        assert(v <= usize::MAX);
                                    }
                                }
                                return DecodeStep::Fail(
                                    ProtocolError(
                                        String::from_str("malformed Content-Length header"),
                                    ),
                                );
                            }
                            content_length = Some(v as usize);
                            cur = i + 2;
                            proof {
                                assert forall|dlen: int|
                                    #[trigger] junk_cl_at(s, posi, dlen) implies false by {
                                    assert(i == posi + 16 + dlen);
                                    assert forall|j: int|
                                        0 <= j < dlen implies is_digit(
                                        #[trigger] s[posi + 16 + j],
                                    ) by {
                                        assert(is_digit(s[posi + (16 + j)]));
                                    }
                                    if dlen == 0 {
                                        assert(p > posi + 16);
                                        assert(p == i);
                                    }
                                }
                            }
                        },
                        Err(_) => {
                            proof {
                                assert forall|m: MessageV|
                                    #![trigger full_frame_at(s, posi, m)]
                                    #![trigger truncated_frame_at(s, posi, m)]
                                    wf_msg(m) && (full_frame_at(s, posi, m)
                                        || truncated_frame_at(s, posi, m)) implies false by {
                                    assert(frame_hypo(s, posi, m));
                                    lemma_frame_bytes(body_of(m));
                                    assert(body_of(m).len() <= u64::MAX && digits_at(
                                        s,
                                        cur + 16,
                                        i as int,
                                        body_of(m).len(),
                                    ));
                                }
                            }
                            return DecodeStep::Fail(
                                ProtocolError(
                                    String::from_str("malformed Content-Length header"),
                                ),
                            );
                        },
                    }
                } else {
                    proof {
                        assert forall|dlen: int|
                            #[trigger] junk_cl_at(s, posi, dlen) implies false by {
                            assert(i == posi + 16 + dlen);
                            assert(i - cur >= 16);
                            assert(s[posi + 0] == 67 && s[posi + 1] == 111 && s[posi + 2] == 110
                                && s[posi + 3] == 116 && s[posi + 4] == 101 && s[posi + 5] == 110
                                && s[posi + 6] == 116 && s[posi + 7] == 45 && s[posi + 8] == 76
                                && s[posi + 9] == 101 && s[posi + 10] == 110 && s[posi + 11] == 103
                                && s[posi + 12] == 116 && s[posi + 13] == 104 && s[posi + 14] == 58
                                && s[posi + 15] == 32);
                        }
                        assert forall|m: MessageV| #[trigger] frame_hypo(s, posi, m) implies false by {
                            lemma_frame_bytes(body_of(m));
                            crate::parse::lemma_dec_digits(body_of(m).len());
                            assert forall|j: int| 0 <= j < 16 implies s[posi + j] == cl_prefix()[j] by {
                                lemma_hypo_byte(s, posi, m, j);
                            }
                            assert(s[posi + 0] == 67 && s[posi + 1] == 111 && s[posi + 2] == 110
                                && s[posi + 3] == 116 && s[posi + 4] == 101 && s[posi + 5] == 110
                                && s[posi + 6] == 116 && s[posi + 7] == 45 && s[posi + 8] == 76
                                && s[posi + 9] == 101 && s[posi + 10] == 110 && s[posi + 11] == 103
                                && s[posi + 12] == 116 && s[posi + 13] == 104 && s[posi + 14] == 58
                                && s[posi + 15] == 32);
                        }
                    }
                    cur = i + 2;
                }
                }
            },
        }
    }
    let body_start = cur + 2;
    match content_length {
        None => {
            proof {
                assert forall|m: MessageV|
                    #![trigger full_frame_at(s, posi, m)]
                    #![trigger truncated_frame_at(s, posi, m)]
                    wf_msg(m) && (full_frame_at(s, posi, m)
                        || truncated_frame_at(s, posi, m)) implies false by {
                    assert(frame_hypo(s, posi, m));
                }
            }
            DecodeStep::Fail(ProtocolError(String::from_str("missing Content-Length header")))
        },
        Some(cl) => {
            if n - body_start < cl {
                proof {
                    assert forall|m: MessageV|
                        wf_msg(m) && #[trigger] full_frame_at(s, posi, m) implies false by {
                        assert(frame_hypo(s, posi, m));
                        lemma_frame_bytes(body_of(m));
                        assert(body_of(m).len() <= usize::MAX);
                        assert(cl == body_of(m).len());
                        assert(n >= posi + msg_frame(m).len());
                    }
                }
                DecodeStep::NeedMore
            } else {
                proof {
                    assert forall|m: MessageV|
                        wf_msg(m) && #[trigger] truncated_frame_at(s, posi, m) implies false by {
                        assert(frame_hypo(s, posi, m));
                        lemma_frame_bytes(body_of(m));
                        assert(body_of(m).len() <= usize::MAX);
                        assert(cl == body_of(m).len());
                        assert(n - posi < msg_frame(m).len());
                    }
                    assert forall|m: MessageV|
                        wf_msg(m) && #[trigger] full_frame_at(s, posi, m) implies crate::json::wf_json(
                        msg_json(m),
                    ) && s.subrange(body_start as int, body_start + cl) == ser_json(
                        msg_json(m),
                    ) && body_start + cl == posi + msg_frame(m).len() by {
                        assert(frame_hypo(s, posi, m));
                        lemma_frame_bytes(body_of(m));
                        crate::codec::lemma_wf_msg_json(m);
                        assert(cl == body_of(m).len());
                        assert forall|j: int|
                            0 <= j < body_of(m).len() implies s.subrange(
                            body_start as int,
                            body_start + cl,
                        )[j] == body_of(m)[j] by {
                            lemma_hypo_byte(s, posi, m, 16 + dl_of(m) + 4 + j);
                            assert(s[posi + (16 + dl_of(m) + 4 + j)] == msg_frame(m)[16 + dl_of(m)
                                + 4 + j]);
                        }
                        assert(s.subrange(body_start as int, body_start + cl) =~= body_of(m));
                    }
                }
                match parse_json(buf, body_start, body_start + cl) {
                    Ok(w) => {
                        match json_to_message(w) {
                            Ok(got) => {
                                proof {
                                    assert forall|m: MessageV|
                                        wf_msg(m) && #[trigger] full_frame_at(s, posi, m) implies got@ == m
                                        && body_start + cl == posi + msg_frame(m).len() by {
                                        crate::codec::lemma_classify_msg_json(m);
                                    }
                                }
                                DecodeStep::Msg(got, body_start + cl)
                            },
                            Err(_) => {
                                proof {
                                    assert forall|m: MessageV|
                                        wf_msg(m) && #[trigger] full_frame_at(s, posi, m) implies false by {
                                        crate::codec::lemma_classify_msg_json(m);
                                    }
                                }
                                DecodeStep::Fail(
                                    ProtocolError(
                                        String::from_str(
                                            "message body fits none of the three shapes",
                                        ),
                                    ),
                                )
                            },
                        }
                    },
                    Err(_) => {
                        proof {
                            assert forall|m: MessageV|
                                wf_msg(m) && #[trigger] full_frame_at(s, posi, m) implies false by {}
                        }
                        DecodeStep::Fail(
                            ProtocolError(String::from_str("message body is not valid JSON")),
                        )
                    },
                }
            }
        },
    }
}


/// Decodes what remains once the stream has ended: a clean end between
/// frames, one more message, or a framing error for bytes that break off
/// inside a frame.
pub fn decode_at_end(buf: &Vec<u8>, pos: usize) -> (r: Result<
    Option<(Message, usize)>,
    ProtocolError,
>)
    requires
        pos <= buf.len(),
    ensures
        pos == buf.len() ==> (r matches Ok(o) && o is None),
        forall|m: MessageV|
            wf_msg(m) && full_frame_at(buf@, pos as int, m) ==> (r matches Ok(o) && o matches Some(
                p,
            ) && p.0@ == m && p.1 == pos + msg_frame(m).len()),
        forall|m: MessageV|
            wf_msg(m) && truncated_frame_at(buf@, pos as int, m) && pos < buf@.len() ==> r is Err,
        (pos + 2 <= buf@.len() && buf@[pos as int] == 13 && buf@[pos + 1] == 10) ==> r is Err,
        forall|dlen: int| #[trigger] junk_cl_at(buf@, pos as int, dlen) ==> r is Err,
{
    if pos == buf.len() {
        proof {
            assert forall|m: MessageV|
                wf_msg(m) && full_frame_at(buf@, pos as int, m) implies false by {
                lemma_frame_bytes(body_of(m));
            }
        }
        return Ok(None);
    }
    match decode_step(buf, pos) {
        DecodeStep::Msg(m, next) => Ok(Some((m, next))),
        DecodeStep::NeedMore => Err(
            ProtocolError(String::from_str("stream ended inside a frame")),
        ),
        DecodeStep::Fail(e) => Err(e),
    }
}

} // verus!
