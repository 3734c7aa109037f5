use vstd::prelude::*;

use crate::json::JsonV;
use crate::json::JsonValue;
use crate::json::jv;
use crate::json::jv_obj;
use crate::json::lemma_jv_obj;
use crate::json::wf_json;
use crate::json::wf_json_obj;
use crate::msg::Message;
use crate::msg::MessageV;
use crate::msg::Notification;
use crate::msg::NotificationV;
use crate::msg::Request;
use crate::msg::RequestId;
use crate::msg::RequestIdV;
use crate::msg::RequestV;
use crate::msg::Response;
use crate::msg::ResponseError;
use crate::msg::ResponseErrorV;
use crate::msg::ResponseV;
use crate::msg::wf_msg;

verus! {

broadcast use vstd::std_specs::vec::group_vec_axioms, vstd::seq::group_seq_axioms;

// ============================================================================
// A message as a JSON object. Encoding always writes the protocol version
// field first; decoding ignores it and every other unknown field.
// ============================================================================

pub open spec fn id_json(id: RequestIdV) -> JsonV {
    match id {
        RequestIdV::Int(i) => JsonV::Int(i),
        RequestIdV::Str(s) => JsonV::Str(s),
    }
}

pub open spec fn err_json(e: ResponseErrorV) -> JsonV {
    JsonV::Obj(
        seq![("code"@, JsonV::Int(e.code)), ("message"@, JsonV::Str(e.message))] + (match e.data {
            Some(d) => seq![("data"@, d)],
            None => Seq::empty(),
        }),
    )
}

/// The JSON object that carries a message on the wire.
pub open spec fn msg_json(m: MessageV) -> JsonV {
    match m {
        MessageV::Request(r) => JsonV::Obj(
            seq![
                ("jsonrpc"@, JsonV::Str("2.0"@)),
                ("id"@, id_json(r.id)),
                ("method"@, JsonV::Str(r.method)),
                ("params"@, r.params),
            ],
        ),
        MessageV::Response(r) => JsonV::Obj(
            seq![("jsonrpc"@, JsonV::Str("2.0"@)), ("id"@, id_json(r.id))] + (match r.result {
                Some(v) => seq![("result"@, v)],
                None => Seq::empty(),
            }) + (match r.error {
                Some(e) => seq![("error"@, err_json(e))],
                None => Seq::empty(),
            }),
        ),
        MessageV::Notification(n) => JsonV::Obj(
            seq![
                ("jsonrpc"@, JsonV::Str("2.0"@)),
                ("method"@, JsonV::Str(n.method)),
                ("params"@, n.params),
            ],
        ),
    }
}

// ============================================================================
// Structural classification of a JSON body, exactly as the wire format
// demands: `id` and `method` make a request; `id` with `result` or `error`
// and no `method` make a response; `method` without `id` makes a
// notification; everything else is a parse error. The first occurrence of a
// field wins; `jsonrpc` and unknown fields are ignored.
// ============================================================================

/// The first value bound to `key`, scanning fields left to right.
pub open spec fn lookup(fs: Seq<(Seq<char>, JsonV)>, key: Seq<char>) -> Option<JsonV>
    decreases fs.len(),
{
    if fs.len() == 0 {
        None
    } else if fs[0].0 == key {
        Some(fs[0].1)
    } else {
        lookup(fs.drop_first(), key)
    }
}

pub open spec fn id_of_json(v: JsonV) -> Option<RequestIdV> {
    match v {
        JsonV::Int(i) => Some(RequestIdV::Int(i)),
        JsonV::Str(s) => Some(RequestIdV::Str(s)),
        _ => None,
    }
}

pub open spec fn err_of_json(v: JsonV) -> Option<ResponseErrorV> {
    match v {
        JsonV::Obj(fs) => match lookup(fs, "code"@) {
            Some(JsonV::Int(ci)) => match lookup(fs, "message"@) {
                Some(JsonV::Str(ms)) => Some(
                    ResponseErrorV { code: ci, message: ms, data: lookup(fs, "data"@) },
                ),
                _ => None,
            },
            _ => None,
        },
        _ => None,
    }
}

/// The message a JSON body stands for, or nothing when its shape fits none
/// of the three categories.
pub open spec fn classify(v: JsonV) -> Option<MessageV> {
    match v {
        JsonV::Obj(fs) => {
            let params = match lookup(fs, "params"@) {
                Some(p) => p,
                None => JsonV::Null,
            };
            match lookup(fs, "method"@) {
                Some(JsonV::Str(ms)) => match lookup(fs, "id"@) {
                    Some(idv) => match id_of_json(idv) {
                        Some(id) => Some(
                            MessageV::Request(RequestV { id, method: ms, params }),
                        ),
                        None => None,
                    },
                    None => Some(
                        MessageV::Notification(NotificationV { method: ms, params }),
                    ),
                },
                Some(_) => None,
                None => match lookup(fs, "id"@) {
                    Some(idv) => match id_of_json(idv) {
                        Some(id) => match lookup(fs, "result"@) {
                            Some(rv) => match lookup(fs, "error"@) {
                                Some(_) => None,
                                None => Some(
                                    MessageV::Response(
                                        ResponseV { id, result: Some(rv), error: None },
                                    ),
                                ),
                            },
                            None => match lookup(fs, "error"@) {
                                Some(ev) => match err_of_json(ev) {
                                    Some(e) => Some(
                                        MessageV::Response(
                                            ResponseV { id, result: None, error: Some(e) },
                                        ),
                                    ),
                                    None => None,
                                },
                                None => None,
                            },
                        },
                        None => None,
                    },
                    None => None,
                },
            }
        },
        _ => None,
    }
}

// ============================================================================
// Executable conversion between messages and JSON values.
// ============================================================================

pub open spec fn opt_jv(o: Option<JsonValue>) -> Option<JsonV> {
    match o {
        Some(x) => Some(jv(x)),
        None => None,
    }
}

fn id_to_json(id: RequestId) -> (v: JsonValue)
    ensures
        jv(v) == id_json(id@),
{
    match id {
        RequestId::Int(i) => JsonValue::Int(i),
        RequestId::Str(s) => JsonValue::Str(s),
    }
}

fn err_to_json(e: ResponseError) -> (v: JsonValue)
    ensures
        jv(v) == err_json(e@),
{
    let ghost ev = e@;
    let mut fields: Vec<(String, JsonValue)> = Vec::new();
    fields.push((String::from_str("code"), JsonValue::Int(e.code)));
    fields.push((String::from_str("message"), JsonValue::Str(e.message)));
    match e.data {
        Some(d) => {
            fields.push((String::from_str("data"), d));
        },
        None => {},
    }
    proof {
        lemma_jv_obj(fields@, 0);
        assert(jv_obj(fields@, 0) =~= (err_json(ev)->Obj_0));
        assert(JsonV::Obj(jv_obj(fields@, 0)) =~= err_json(ev));
    }
    JsonValue::Object(fields)
}

/// The JSON object that carries `m` on the wire.
pub fn message_to_json(m: Message) -> (v: JsonValue)
    ensures
        jv(v) == msg_json(m@),
{
    let ghost mv = m@;
    match m {
        Message::Request(r) => {
            let mut fields: Vec<(String, JsonValue)> = Vec::new();
            fields.push((String::from_str("jsonrpc"), JsonValue::Str(String::from_str("2.0"))));
            fields.push((String::from_str("id"), id_to_json(r.id)));
            fields.push((String::from_str("method"), JsonValue::Str(r.method)));
            fields.push((String::from_str("params"), r.params));
            proof {
                lemma_jv_obj(fields@, 0);
                assert(jv_obj(fields@, 0) =~= (msg_json(mv)->Obj_0));
                assert(JsonV::Obj(jv_obj(fields@, 0)) =~= msg_json(mv));
            }
            JsonValue::Object(fields)
        },
        Message::Response(r) => {
            let mut fields: Vec<(String, JsonValue)> = Vec::new();
            fields.push((String::from_str("jsonrpc"), JsonValue::Str(String::from_str("2.0"))));
            fields.push((String::from_str("id"), id_to_json(r.id)));
            match r.result {
                Some(rv) => {
                    fields.push((String::from_str("result"), rv));
                },
                None => {},
            }
            match r.error {
                Some(e) => {
                    fields.push((String::from_str("error"), err_to_json(e)));
                },
                None => {},
            }
            proof {
                lemma_jv_obj(fields@, 0);
                assert(jv_obj(fields@, 0) =~= (msg_json(mv)->Obj_0));
                assert(JsonV::Obj(jv_obj(fields@, 0)) =~= msg_json(mv));
            }
            JsonValue::Object(fields)
        },
        Message::Notification(n) => {
            let mut fields: Vec<(String, JsonValue)> = Vec::new();
            fields.push((String::from_str("jsonrpc"), JsonValue::Str(String::from_str("2.0"))));
            fields.push((String::from_str("method"), JsonValue::Str(n.method)));
            fields.push((String::from_str("params"), n.params));
            proof {
                lemma_jv_obj(fields@, 0);
                assert(jv_obj(fields@, 0) =~= (msg_json(mv)->Obj_0));
                assert(JsonV::Obj(jv_obj(fields@, 0)) =~= msg_json(mv));
            }
            JsonValue::Object(fields)
        },
    }
}

/// Scans an object's fields for the handshake-significant keys; the first
/// occurrence of each key wins, all other fields are ignored.
#[verifier::loop_isolation(false)]
fn take_fields(fields: Vec<(String, JsonValue)>, k0: &str, k1: &str, k2: &str, k3: &str, k4: &str) -> (r: (
    Option<JsonValue>,
    Option<JsonValue>,
    Option<JsonValue>,
    Option<JsonValue>,
    Option<JsonValue>,
))
    requires
        k0@ != k1@ && k0@ != k2@ && k0@ != k3@ && k0@ != k4@,
        k1@ != k2@ && k1@ != k3@ && k1@ != k4@,
        k2@ != k3@ && k2@ != k4@,
        k3@ != k4@,
    ensures
        opt_jv(r.0) == lookup(jv_obj(fields@, 0), k0@),
        opt_jv(r.1) == lookup(jv_obj(fields@, 0), k1@),
        opt_jv(r.2) == lookup(jv_obj(fields@, 0), k2@),
        opt_jv(r.3) == lookup(jv_obj(fields@, 0), k3@),
        opt_jv(r.4) == lookup(jv_obj(fields@, 0), k4@),
{
    let ghost fs0 = jv_obj(fields@, 0);
    let ghost n = fs0.len() as int;
    proof {
        lemma_jv_obj(fields@, 0);
    }
    let mut fields = fields;
    let mut s0: Option<JsonValue> = None;
    let mut s1: Option<JsonValue> = None;
    let mut s2: Option<JsonValue> = None;
    let mut s3: Option<JsonValue> = None;
    let mut s4: Option<JsonValue> = None;
    loop
        invariant
            fields@.len() <= n,
            jv_obj(fields@, 0) =~= fs0.take(fields@.len() as int),
            opt_jv(s0) == lookup(fs0.subrange(fields@.len() as int, n), k0@),
            opt_jv(s1) == lookup(fs0.subrange(fields@.len() as int, n), k1@),
            opt_jv(s2) == lookup(fs0.subrange(fields@.len() as int, n), k2@),
            opt_jv(s3) == lookup(fs0.subrange(fields@.len() as int, n), k3@),
            opt_jv(s4) == lookup(fs0.subrange(fields@.len() as int, n), k4@),
        decreases fields@.len(),
    {
        if fields.len() == 0 {
            break ;
        }
        let ghost i = fields@.len() as int;
        let ghost fb = fields@;
        let pair = fields.pop().unwrap();
        let (key, val) = pair;
        proof {
            lemma_jv_obj(fb, 0);
            assert(jv_obj(fb, 0)[i - 1] == (fb[i - 1].0@, jv(fb[i - 1].1)));
            assert(fs0.take(i)[i - 1] == fs0[i - 1]);
            assert(fs0[i - 1] == (key@, jv(val)));
            assert(fs0.subrange(i - 1, n).drop_first() =~= fs0.subrange(i, n));
            assert(fs0.subrange(i - 1, n)[0] == fs0[i - 1]);
            lemma_jv_obj(fields@, 0);
            assert(jv_obj(fields@, 0) =~= fs0.take(i - 1));
        }
        if key == k0.to_owned() {
            s0 = Some(val);
        } else if key == k1.to_owned() {
            s1 = Some(val);
        } else if key == k2.to_owned() {
            s2 = Some(val);
        } else if key == k3.to_owned() {
            s3 = Some(val);
        } else if key == k4.to_owned() {
            s4 = Some(val);
        }
    }
    proof {
        assert(fs0.subrange(0, n) =~= fs0);
    }
    (s0, s1, s2, s3, s4)
}

fn parse_response_error(e: JsonValue) -> (r: Result<ResponseError, ()>)
    ensures
        r matches Ok(x) ==> err_of_json(jv(e)) == Some(x@),
        r is Err ==> err_of_json(jv(e)) is None,
{
    match e {
        JsonValue::Object(fields) => {
            let ghost fs0 = jv_obj(fields@, 0);
            proof {
                reveal_strlit("code");
                reveal_strlit("message");
                reveal_strlit("data");
                reveal_strlit("-a");
                reveal_strlit("-b");
                assert("code"@.len() == 4 && "message"@.len() == 7 && "data"@.len() == 4
                    && "-a"@.len() == 2 && "-b"@.len() == 2);
                assert("code"@[0] == 'c' && "data"@[0] == 'd' && "-a"@[1] == 'a' && "-b"@[1]
                    == 'b');
            }
            let (code_s, message_s, data_s, _x, _y) = take_fields(
                fields,
                "code",
                "message",
                "data",
                "-a",
                "-b",
            );
            match code_s {
                Some(JsonValue::Int(ci)) => match message_s {
                    Some(JsonValue::Str(ms)) => {
                        let out = ResponseError { code: ci, message: ms, data: data_s };
                        proof {
                            assert(err_of_json(JsonV::Obj(fs0)) =~= Some(out@));
                        }
                        Ok(out)
                    },
                    _ => Err(()),
                },
                _ => Err(()),
            }
        },
        _ => Err(()),
    }
}

/// Classifies a JSON body into one of the three message shapes, or reports
/// that its shape fits none.
pub fn json_to_message(v: JsonValue) -> (r: Result<Message, ()>)
    ensures
        r matches Ok(m) ==> classify(jv(v)) == Some(m@),
        r is Err ==> classify(jv(v)) is None,
{
    match v {
        JsonValue::Object(fields) => {
            let ghost fs0 = jv_obj(fields@, 0);
            proof {
                reveal_strlit("id");
                reveal_strlit("method");
                reveal_strlit("result");
                reveal_strlit("error");
                reveal_strlit("params");
                assert("id"@.len() == 2 && "method"@.len() == 6 && "result"@.len() == 6
                    && "error"@.len() == 5 && "params"@.len() == 6);
                assert("method"@[0] == 'm' && "result"@[0] == 'r' && "params"@[0] == 'p');
            }
            let (id_s, method_s, result_s, error_s, params_s) = take_fields(
                fields,
                "id",
                "method",
                "result",
                "error",
                "params",
            );
            let params = match params_s {
                Some(p) => p,
                None => JsonValue::Null,
            };
            match method_s {
                Some(JsonValue::Str(ms)) => {
                    match id_s {
                        Some(idv) => {
                            let id = match idv {
                                JsonValue::Int(i) => RequestId::Int(i),
                                JsonValue::Str(s) => RequestId::Str(s),
                                _ => {
                                    return Err(());
                                },
                            };
                            let out = Message::Request(Request { id, method: ms, params });
                            proof {
                                assert(classify(JsonV::Obj(fs0)) =~= Some(out@));
                            }
                            Ok(out)
                        },
                        None => {
                            let out = Message::Notification(
                                Notification { method: ms, params },
                            );
                            proof {
                                assert(classify(JsonV::Obj(fs0)) =~= Some(out@));
                            }
                            Ok(out)
                        },
                    }
                },
                Some(_) => Err(()),
                None => {
                    match id_s {
                        Some(idv) => {
                            let id = match idv {
                                JsonValue::Int(i) => RequestId::Int(i),
                                JsonValue::Str(s) => RequestId::Str(s),
                                _ => {
                                    return Err(());
                                },
                            };
                            match result_s {
                                Some(rv) => {
                                    match error_s {
                                        Some(_) => Err(()),
                                        None => {
                                            let out = Message::Response(
                                                Response { id, result: Some(rv), error: None },
                                            );
                                            proof {
                                                assert(classify(JsonV::Obj(fs0)) =~= Some(out@));
                                            }
                                            Ok(out)
                                        },
                                    }
                                },
                                None => {
                                    match error_s {
                                        Some(ev) => {
                                            match parse_response_error(ev) {
                                                Ok(e) => {
                                                    let out = Message::Response(
                                                        Response {
                                                            id,
                                                            result: None,
                                                            error: Some(e),
                                                        },
                                                    );
                                                    proof {
                                                        assert(classify(JsonV::Obj(fs0)) =~= Some(
                                                            out@,
                                                        ));
                                                    }
                                                    Ok(out)
                                                },
                                                Err(_) => Err(()),
                                            }
                                        },
                                        None => Err(()),
                                    }
                                },
                            }
                        },
                        None => Err(()),
                    }
                },
            }
        },
        _ => Err(()),
    }
}

// ============================================================================
// The round trip at the JSON level: the object written for a representable
// message classifies back to exactly that message.
// ============================================================================

proof fn reveal_keys()
    ensures
        "jsonrpc"@.len() == 7 && "id"@.len() == 2 && "method"@.len() == 6 && "result"@.len() == 6
            && "error"@.len() == 5 && "params"@.len() == 6 && "code"@.len() == 4
            && "message"@.len() == 7 && "data"@.len() == 4 && "2.0"@.len() == 3,
        "method"@[0] == 'm' && "result"@[0] == 'r' && "params"@[0] == 'p' && "jsonrpc"@[0] == 'j'
            && "message"@[0] == 'm' && "code"@[0] == 'c' && "data"@[0] == 'd',
{
    reveal_strlit("jsonrpc");
    reveal_strlit("id");
    reveal_strlit("method");
    reveal_strlit("result");
    reveal_strlit("error");
    reveal_strlit("params");
    reveal_strlit("code");
    reveal_strlit("message");
    reveal_strlit("data");
    reveal_strlit("2.0");
}

/// The message object of a representable message is itself representable, so
/// the encoder accepts it.
pub proof fn lemma_wf_msg_json(m: MessageV)
    requires
        wf_msg(m),
    ensures
        wf_json(msg_json(m)),
{
    reveal_keys();
    match m {
        MessageV::Request(r) => {
            let fs = msg_json(m)->Obj_0;
            assert(fs =~= seq![
                ("jsonrpc"@, JsonV::Str("2.0"@)),
                ("id"@, id_json(r.id)),
                ("method"@, JsonV::Str(r.method)),
                ("params"@, r.params),
            ]);
            assert(wf_json(id_json(r.id)));
            assert(wf_json(JsonV::Str("2.0"@)));
            assert(wf_json(JsonV::Str(r.method)));
            assert(wf_json_obj(fs, 4));
            assert(wf_json_obj(fs, 3));
            assert(wf_json_obj(fs, 2));
            assert(wf_json_obj(fs, 1));
            assert(wf_json_obj(fs, 0));
        },
        MessageV::Response(r) => {
            let fs = msg_json(m)->Obj_0;
            assert(wf_json(id_json(r.id)));
            assert(wf_json(JsonV::Str("2.0"@)));
            match r.error {
                Some(e) => {
                    assert(fs =~= seq![
                        ("jsonrpc"@, JsonV::Str("2.0"@)),
                        ("id"@, id_json(r.id)),
                        ("error"@, err_json(e)),
                    ]);
                    let efs = err_json(e)->Obj_0;
                    assert(wf_json(JsonV::Str(e.message)));
                    assert(wf_json(JsonV::Int(e.code)));
                    match e.data {
                        Some(d) => {
                            assert(efs =~= seq![
                                ("code"@, JsonV::Int(e.code)),
                                ("message"@, JsonV::Str(e.message)),
                                ("data"@, d),
                            ]);
                            assert(wf_json_obj(efs, 3));
                            assert(wf_json_obj(efs, 2));
                            assert(wf_json_obj(efs, 1));
                            assert(wf_json_obj(efs, 0));
                        },
                        None => {
                            assert(efs =~= seq![
                                ("code"@, JsonV::Int(e.code)),
                                ("message"@, JsonV::Str(e.message)),
                            ]);
                            assert(wf_json_obj(efs, 2));
                            assert(wf_json_obj(efs, 1));
                            assert(wf_json_obj(efs, 0));
                        },
                    }
                    assert(wf_json(err_json(e)));
                },
                None => {
                    assert(fs =~= seq![
                        ("jsonrpc"@, JsonV::Str("2.0"@)),
                        ("id"@, id_json(r.id)),
                        ("result"@, r.result->Some_0),
                    ]);
                },
            }
            assert(fs.len() == 3);
            assert(wf_json(fs[2].1));
            assert(wf_json_obj(fs, 3));
            assert(wf_json_obj(fs, 2));
            assert(wf_json_obj(fs, 1));
            assert(wf_json_obj(fs, 0));
        },
        MessageV::Notification(n) => {
            let fs = msg_json(m)->Obj_0;
            assert(fs =~= seq![
                ("jsonrpc"@, JsonV::Str("2.0"@)),
                ("method"@, JsonV::Str(n.method)),
                ("params"@, n.params),
            ]);
            assert(wf_json(JsonV::Str("2.0"@)));
            assert(wf_json(JsonV::Str(n.method)));
            assert(wf_json_obj(fs, 3));
            assert(wf_json_obj(fs, 2));
            assert(wf_json_obj(fs, 1));
            assert(wf_json_obj(fs, 0));
        },
    }
}

/// `lookup` finds the field at the first index whose key matches.
proof fn lemma_lookup_at(fs: Seq<(Seq<char>, JsonV)>, key: Seq<char>, i: int)
    requires
        0 <= i <= fs.len(),
        forall|j: int| 0 <= j < i ==> (#[trigger] fs[j]).0 != key,
    ensures
        i == fs.len() ==> lookup(fs, key) is None,
        i < fs.len() && fs[i].0 == key ==> lookup(fs, key) == Some(fs[i].1),
    decreases fs.len(),
{
    if fs.len() > 0 && fs[0].0 != key {
        let f1 = fs.drop_first();
        if i > 0 {
            assert(forall|j: int| 0 <= j < i - 1 ==> (#[trigger] f1[j]).0 != key);
            lemma_lookup_at(f1, key, i - 1);
        } else {
            lemma_lookup_at(f1, key, 0);
        }
    }
}

/// The round trip at the JSON level.
pub proof fn lemma_classify_msg_json(m: MessageV)
    requires
        wf_msg(m),
    ensures
        classify(msg_json(m)) == Some(m),
{
    reveal_keys();
    match m {
        MessageV::Request(r) => {
            let fs = msg_json(m)->Obj_0;
            assert(fs =~= seq![
                ("jsonrpc"@, JsonV::Str("2.0"@)),
                ("id"@, id_json(r.id)),
                ("method"@, JsonV::Str(r.method)),
                ("params"@, r.params),
            ]);
            lemma_lookup_at(fs, "id"@, 1);
            lemma_lookup_at(fs, "method"@, 2);
            lemma_lookup_at(fs, "params"@, 3);
            assert(lookup(fs, "id"@) == Some(id_json(r.id)));
            assert(lookup(fs, "method"@) == Some(JsonV::Str(r.method)));
            assert(lookup(fs, "params"@) == Some(r.params));
            assert(id_of_json(id_json(r.id)) == Some(r.id));
            assert(classify(msg_json(m)) =~= Some(m));
        },
        MessageV::Response(r) => {
            let fs = msg_json(m)->Obj_0;
            lemma_lookup_at(fs, "id"@, 1);
            lemma_lookup_at(fs, "method"@, 3);
            assert(id_of_json(id_json(r.id)) == Some(r.id));
            match r.result {
                Some(rv) => {
                    assert(fs =~= seq![
                        ("jsonrpc"@, JsonV::Str("2.0"@)),
                        ("id"@, id_json(r.id)),
                        ("result"@, rv),
                    ]);
                    lemma_lookup_at(fs, "result"@, 2);
                    lemma_lookup_at(fs, "error"@, 3);
                    assert(lookup(fs, "id"@) == Some(id_json(r.id)));
                    assert(lookup(fs, "method"@) is None);
                    assert(lookup(fs, "result"@) == Some(rv));
                    assert(lookup(fs, "error"@) is None);
                    assert(classify(msg_json(m)) =~= Some(m));
                },
                None => {
                    let e = r.error->Some_0;
                    assert(fs =~= seq![
                        ("jsonrpc"@, JsonV::Str("2.0"@)),
                        ("id"@, id_json(r.id)),
                        ("error"@, err_json(e)),
                    ]);
                    lemma_lookup_at(fs, "result"@, 3);
                    lemma_lookup_at(fs, "error"@, 2);
                    assert(lookup(fs, "id"@) == Some(id_json(r.id)));
                    assert(lookup(fs, "method"@) is None);
                    assert(lookup(fs, "result"@) is None);
                    assert(lookup(fs, "error"@) == Some(err_json(e)));
                    let efs = err_json(e)->Obj_0;
                    lemma_lookup_at(efs, "code"@, 0);
                    lemma_lookup_at(efs, "message"@, 1);
                    assert(lookup(efs, "code"@) == Some(JsonV::Int(e.code)));
                    assert(lookup(efs, "message"@) == Some(JsonV::Str(e.message)));
                    match e.data {
                        Some(d) => {
                            assert(efs =~= seq![
                                ("code"@, JsonV::Int(e.code)),
                                ("message"@, JsonV::Str(e.message)),
                                ("data"@, d),
                            ]);
                            lemma_lookup_at(efs, "data"@, 2);
                            assert(lookup(efs, "data"@) == Some(d));
                        },
                        None => {
                            assert(efs =~= seq![
                                ("code"@, JsonV::Int(e.code)),
                                ("message"@, JsonV::Str(e.message)),
                            ]);
                            lemma_lookup_at(efs, "data"@, 2);
                            assert(lookup(efs, "data"@) is None);
                        },
                    }
                    assert(err_of_json(err_json(e)) =~= Some(e));
                    assert(classify(msg_json(m)) =~= Some(m));
                },
            }
        },
        MessageV::Notification(n) => {
            let fs = msg_json(m)->Obj_0;
            assert(fs =~= seq![
                ("jsonrpc"@, JsonV::Str("2.0"@)),
                ("method"@, JsonV::Str(n.method)),
                ("params"@, n.params),
            ]);
            lemma_lookup_at(fs, "id"@, 3);
            lemma_lookup_at(fs, "method"@, 1);
            lemma_lookup_at(fs, "params"@, 2);
            assert(lookup(fs, "id"@) is None);
            assert(lookup(fs, "method"@) == Some(JsonV::Str(n.method)));
            assert(lookup(fs, "params"@) == Some(n.params));
            assert(classify(msg_json(m)) =~= Some(m));
        },
    }
}

} // verus!
