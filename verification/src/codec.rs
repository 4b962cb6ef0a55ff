//! The control-plane envelopes and their wire form: one JSON object per
//! line in each direction.
//!
//! A request is `{"type": <string>, "message"?: <string>, "payload"?: <any>}`;
//! a response is `{"status": "ok"|"error", "data"?: <any>}`.  Absent optional
//! fields are left off the wire, a JSON `null` in them reads back as absent,
//! and unknown fields are ignored.  When the same key appears twice in one
//! object, the later occurrence wins, as it would in a map-building reader.
//! Numbers on this wire are `i64` integers by design; see the grammar
//! module for the reasoning.

use vstd::prelude::*;

use crate::json::{
    decode_json, encode_json, jsonv_of, jsonv_of_list, jsonv_of_pairs, lemma_json_round_trip,
    lemma_jsonv_of_list, lemma_jsonv_of_pairs, print_json, sp_json, wf_jsonv, wf_jsonv_pairs, Json,
    JsonV,
};

verus! {

/// A decoded control-plane request.
#[derive(Debug)]
pub struct Request {
    pub kind: String,
    pub message: Option<String>,
    pub payload: Option<Json>,
}

/// The model of a [`Request`].
pub ghost struct ReqV {
    pub kind: Seq<char>,
    pub message: Option<Seq<char>>,
    pub payload: Option<JsonV>,
}

impl View for Request {
    type V = ReqV;

    open spec fn view(&self) -> ReqV {
        ReqV {
            kind: self.kind@,
            message: crate::store::opt_str_view(self.message),
            payload: match self.payload {
                Some(p) => Some(jsonv_of(p)),
                None => None,
            },
        }
    }
}

/// A control-plane response.
#[derive(Debug)]
pub struct Response {
    pub status: String,
    pub data: Option<Json>,
}

/// The model of a [`Response`].
pub ghost struct RespV {
    pub status: Seq<char>,
    pub data: Option<JsonV>,
}

impl View for Response {
    type V = RespV;

    open spec fn view(&self) -> RespV {
        RespV {
            status: self.status@,
            data: match self.data {
                Some(d) => Some(jsonv_of(d)),
                None => None,
            },
        }
    }
}

/// The value bound to `key` in an object, later occurrences winning.
pub open spec fn spec_lookup(pairs: Seq<(Seq<char>, JsonV)>, key: Seq<char>) -> Option<JsonV>
    decreases pairs.len(),
{
    if pairs.len() == 0 {
        None
    } else if pairs.last().0 == key {
        Some(pairs.last().1)
    } else {
        spec_lookup(pairs.drop_last(), key)
    }
}

/// Finds the value bound to `key`, scanning from the end.
#[verifier::loop_isolation(false)]
pub fn json_lookup<'a>(pairs: &'a Vec<(String, Json)>, key: &str) -> (r: Option<&'a Json>)
    ensures
        match r {
            Some(v) => spec_lookup(jsonv_of_pairs(pairs@), key@) == Some(jsonv_of(*v)),
            None => spec_lookup(jsonv_of_pairs(pairs@), key@) is None,
        },
{
    proof {
        lemma_jsonv_of_pairs(pairs@);
        assert(jsonv_of_pairs(pairs@).take(pairs@.len() as int) =~= jsonv_of_pairs(pairs@));
    }
    let n = pairs.len();
    let mut i: usize = n;
    while i > 0
        invariant
            i <= n,
            spec_lookup(jsonv_of_pairs(pairs@), key@) == spec_lookup(
                jsonv_of_pairs(pairs@).take(i as int),
                key@,
            ),
        decreases i,
    {
        i = i - 1;
        proof {
            assert(jsonv_of_pairs(pairs@).take(i + 1).drop_last() =~= jsonv_of_pairs(pairs@).take(
                i as int,
            ));
            assert(jsonv_of_pairs(pairs@).take(i + 1).last() == jsonv_of_pairs(pairs@)[i as int]);
        }
        if crate::store::str_eq(pairs[i].0.as_str(), key) {
            return Some(&pairs[i].1);
        }
    }
    proof {
        assert(jsonv_of_pairs(pairs@).take(0) =~= Seq::<(Seq<char>, JsonV)>::empty());
    }
    None
}

/// A deep copy of a JSON value.
#[verifier::loop_isolation(false)]
pub fn clone_json(j: &Json) -> (r: Json)
    ensures
        r@ == j@,
    decreases j,
{
    match j {
        Json::Null => Json::Null,
        Json::Bool(b) => Json::Bool(*b),
        Json::Int(i) => Json::Int(*i),
        Json::Str(s) => Json::Str(s.clone()),
        Json::Arr(elems) => {
            let n = elems.len();
            let mut out: Vec<Json> = Vec::new();
            proof {
                lemma_jsonv_of_list(elems@);
                assert(jsonv_of_list(out@) =~= jsonv_of_list(elems@).take(0));
            }
            let mut i: usize = 0;
            while i < n
                invariant
                    i <= n,
                    out@.len() == i,
                    jsonv_of_list(out@) == jsonv_of_list(elems@).take(i as int),
                decreases n - i,
            {
                let ghost pre = out@;
                proof {
                    assert(decreases_to!(*j => *elems));
                    assert(decreases_to!(*elems => elems@[i as int]));
                }
                let c = clone_json(&elems[i]);
                out.push(c);
                proof {
                    crate::json::lemma_jsonv_of_list_push(pre, out@[i as int]);
                    assert(out@ =~= pre.push(out@[i as int]));
                    assert(jsonv_of(out@[i as int]) == jsonv_of_list(elems@)[i as int]);
                    assert(jsonv_of_list(elems@).take(i + 1) =~= jsonv_of_list(elems@).take(
                        i as int,
                    ).push(jsonv_of_list(elems@)[i as int]));
                    assert(jsonv_of_list(out@) =~= jsonv_of_list(elems@).take(i + 1));
                }
                i = i + 1;
            }
            proof {
                assert(jsonv_of_list(elems@).take(n as int) =~= jsonv_of_list(elems@));
            }
            Json::Arr(out)
        },
        Json::Obj(pairs) => {
            let n = pairs.len();
            let mut out: Vec<(String, Json)> = Vec::new();
            proof {
                lemma_jsonv_of_pairs(pairs@);
                assert(jsonv_of_pairs(out@) =~= jsonv_of_pairs(pairs@).take(0));
            }
            let mut i: usize = 0;
            while i < n
                invariant
                    i <= n,
                    out@.len() == i,
                    jsonv_of_pairs(out@) == jsonv_of_pairs(pairs@).take(i as int),
                decreases n - i,
            {
                let ghost pre = out@;
                proof {
                    assert(decreases_to!(*j => *pairs));
                    assert(decreases_to!(*pairs => pairs@[i as int]));
                    assert(decreases_to!(pairs@[i as int] => pairs@[i as int].1));
                }
                let c = clone_json(&pairs[i].1);
                out.push((pairs[i].0.clone(), c));
                proof {
                    crate::json::lemma_jsonv_of_pairs_push(pre, out@[i as int]);
                    assert(out@ =~= pre.push(out@[i as int]));
                    assert((out@[i as int].0@, jsonv_of(out@[i as int].1)) == jsonv_of_pairs(
                        pairs@,
                    )[i as int]);
                    assert(jsonv_of_pairs(pairs@).take(i + 1) =~= jsonv_of_pairs(pairs@).take(
                        i as int,
                    ).push(jsonv_of_pairs(pairs@)[i as int]));
                    assert(jsonv_of_pairs(out@) =~= jsonv_of_pairs(pairs@).take(i + 1));
                }
                i = i + 1;
            }
            proof {
                assert(jsonv_of_pairs(pairs@).take(n as int) =~= jsonv_of_pairs(pairs@));
            }
            Json::Obj(out)
        },
    }
}

/// The JSON object a request is written as.
pub open spec fn request_jsonv(r: ReqV) -> JsonV {
    let base: Seq<(Seq<char>, JsonV)> = seq![("type"@, JsonV::Str(r.kind))];
    let with_msg: Seq<(Seq<char>, JsonV)> = match r.message {
        Some(m) => base.push(("message"@, JsonV::Str(m))),
        None => base,
    };
    let with_payload: Seq<(Seq<char>, JsonV)> = match r.payload {
        Some(p) => with_msg.push(("payload"@, p)),
        None => with_msg,
    };
    JsonV::Obj(with_payload)
}

/// Writes a request as one JSON object, optional fields left off.
pub fn encode_request(r: &Request) -> (s: String)
    ensures
        s@ == print_json(request_jsonv(r@)),
{
    let mut pairs: Vec<(String, Json)> = Vec::new();
    pairs.push((String::from_str("type"), Json::Str(r.kind.clone())));
    match &r.message {
        Some(m) => pairs.push((String::from_str("message"), Json::Str(m.clone()))),
        None => {},
    }
    match &r.payload {
        Some(p) => pairs.push((String::from_str("payload"), clone_json(p))),
        None => {},
    }
    proof {
        lemma_jsonv_of_pairs(pairs@);
        if r@.message is Some && r@.payload is Some {
            assert(pairs@.len() == 3);
            assert(jsonv_of_pairs(pairs@) =~= request_jsonv(r@)->Obj_0);
        } else if r@.message is Some {
            assert(pairs@.len() == 2);
            assert(jsonv_of_pairs(pairs@)[0] == (pairs@[0].0@, jsonv_of(pairs@[0].1)));
            assert(jsonv_of_pairs(pairs@)[1] == (pairs@[1].0@, jsonv_of(pairs@[1].1)));
            assert(jsonv_of_pairs(pairs@) =~= request_jsonv(r@)->Obj_0);
        } else if r@.payload is Some {
            assert(pairs@.len() == 2);
            assert(jsonv_of_pairs(pairs@)[0] == (pairs@[0].0@, jsonv_of(pairs@[0].1)));
            assert(jsonv_of_pairs(pairs@)[1] == (pairs@[1].0@, jsonv_of(pairs@[1].1)));
            assert(jsonv_of_pairs(pairs@) =~= request_jsonv(r@)->Obj_0);
        } else {
            assert(pairs@.len() == 1);
            assert(jsonv_of_pairs(pairs@) =~= request_jsonv(r@)->Obj_0);
        }
    }
    let j = Json::Obj(pairs);
    encode_json(&j)
}

/// The JSON object a response is written as.
pub open spec fn response_jsonv(r: RespV) -> JsonV {
    let base: Seq<(Seq<char>, JsonV)> = seq![("status"@, JsonV::Str(r.status))];
    let with_data: Seq<(Seq<char>, JsonV)> = match r.data {
        Some(d) => base.push(("data"@, d)),
        None => base,
    };
    JsonV::Obj(with_data)
}

/// Writes a response as one JSON object, `data` left off when absent.
pub fn encode_response(r: &Response) -> (s: String)
    ensures
        s@ == print_json(response_jsonv(r@)),
{
    let mut pairs: Vec<(String, Json)> = Vec::new();
    pairs.push((String::from_str("status"), Json::Str(r.status.clone())));
    match &r.data {
        Some(d) => pairs.push((String::from_str("data"), clone_json(d))),
        None => {},
    }
    proof {
        lemma_jsonv_of_pairs(pairs@);
        if r@.data is Some {
            assert(pairs@.len() == 2);
            assert(jsonv_of_pairs(pairs@)[0] == (pairs@[0].0@, jsonv_of(pairs@[0].1)));
            assert(jsonv_of_pairs(pairs@)[1] == (pairs@[1].0@, jsonv_of(pairs@[1].1)));
            assert(jsonv_of_pairs(pairs@) =~= response_jsonv(r@)->Obj_0);
        } else {
            assert(pairs@.len() == 1);
            assert(jsonv_of_pairs(pairs@) =~= response_jsonv(r@)->Obj_0);
        }
    }
    let j = Json::Obj(pairs);
    encode_json(&j)
}

/// What a well-formed request line decodes to: the line must hold one JSON
/// object with a string `type`; `message` may be a string, `null`, or
/// absent; `payload` may be anything, with `null` reading as absent.
pub open spec fn spec_decode_request(s: Seq<char>) -> Option<ReqV> {
    match sp_json(s) {
        Some(JsonV::Obj(pairs)) => match spec_lookup(pairs, "type"@) {
            Some(JsonV::Str(kind)) => {
                let msg = spec_lookup(pairs, "message"@);
                let pay = spec_lookup(pairs, "payload"@);
                if msg is Some && !(msg matches Some(JsonV::Str(_))) && !(msg matches Some(
                    JsonV::Null,
                )) {
                    None
                } else {
                    Some(
                        ReqV {
                            kind,
                            message: match msg {
                                Some(JsonV::Str(m)) => Some(m),
                                _ => None,
                            },
                            payload: match pay {
                                Some(JsonV::Null) => None,
                                Some(p) => Some(p),
                                None => None,
                            },
                        },
                    )
                }
            },
            _ => None,
        },
        _ => None,
    }
}

/// Reads one request line.  `None` is a malformed line: not JSON, not an
/// object, no string `type`, or an ill-typed `message`.
pub fn decode_request(s: &str) -> (r: Option<Request>)
    ensures
        match r {
            Some(req) => spec_decode_request(s@) == Some(req@),
            None => spec_decode_request(s@) is None,
        },
{
    let parsed = match decode_json(s) {
        Some(v) => v,
        None => {
            return None;
        },
    };
    let pairs = match parsed {
        Json::Obj(pairs) => pairs,
        _ => {
            return None;
        },
    };
    let kind = match json_lookup(&pairs, "type") {
        Some(Json::Str(k)) => k.clone(),
        _ => {
            return None;
        },
    };
    let message = match json_lookup(&pairs, "message") {
        Some(Json::Str(m)) => Some(m.clone()),
        Some(Json::Null) => None,
        Some(_) => {
            return None;
        },
        None => None,
    };
    let payload = match json_lookup(&pairs, "payload") {
        Some(Json::Null) => None,
        Some(p) => Some(clone_json(p)),
        None => None,
    };
    Some(Request { kind, message, payload })
}

/// What a well-formed response line decodes to: one JSON object with a
/// string `status`; `data` may be anything, with `null` reading as absent.
pub open spec fn spec_decode_response(s: Seq<char>) -> Option<RespV> {
    match sp_json(s) {
        Some(JsonV::Obj(pairs)) => match spec_lookup(pairs, "status"@) {
            Some(JsonV::Str(status)) => Some(
                RespV {
                    status,
                    data: match spec_lookup(pairs, "data"@) {
                        Some(JsonV::Null) => None,
                        Some(d) => Some(d),
                        None => None,
                    },
                },
            ),
            _ => None,
        },
        _ => None,
    }
}

/// Reads one response line, as the terminal client does.
pub fn decode_response(s: &str) -> (r: Option<Response>)
    ensures
        match r {
            Some(resp) => spec_decode_response(s@) == Some(resp@),
            None => spec_decode_response(s@) is None,
        },
{
    let parsed = match decode_json(s) {
        Some(v) => v,
        None => {
            return None;
        },
    };
    let pairs = match parsed {
        Json::Obj(pairs) => pairs,
        _ => {
            return None;
        },
    };
    let status = match json_lookup(&pairs, "status") {
        Some(Json::Str(k)) => k.clone(),
        _ => {
            return None;
        },
    };
    let data = match json_lookup(&pairs, "data") {
        Some(Json::Null) => None,
        Some(d) => Some(clone_json(d)),
        None => None,
    };
    Some(Response { status, data })
}

/// The protocol round trip: writing a request and reading the line back
/// yields the request, field for field.  The one family of requests left
/// out: a payload of JSON `null`, which the wire cannot distinguish from
/// an absent payload.
pub proof fn lemma_request_round_trip(r: ReqV)
    requires
        match r.payload {
            Some(p) => wf_jsonv(p) && p != JsonV::Null,
            None => true,
        },
    ensures
        spec_decode_request(print_json(request_jsonv(r))) == Some(r),
{
    let v = request_jsonv(r);
    let pairs = v->Obj_0;
    assert(wf_jsonv(v)) by {
        assert forall|k: int| 0 <= k < pairs.len() implies wf_jsonv(#[trigger] pairs[k].1) by {
            if k == 0 {
                assert(pairs[k].1 == JsonV::Str(r.kind));
            }
        }
        assert(wf_jsonv_pairs(pairs));
    }
    lemma_json_round_trip(v);
    reveal_with_fuel(spec_lookup, 5);
    reveal_strlit("type");
    reveal_strlit("message");
    reveal_strlit("payload");
    assert("type"@.len() == 4);
    assert("message"@.len() == 7);
    assert("payload"@.len() == 7);
    assert("message"@[0] == 'm' && "payload"@[0] == 'p');
    assert("type"@ != "message"@ && "type"@ != "payload"@ && "message"@ != "payload"@);
    match (r.message, r.payload) {
        (Some(m), Some(p)) => {
            assert(pairs =~= seq![
                ("type"@, JsonV::Str(r.kind)),
                ("message"@, JsonV::Str(m)),
                ("payload"@, p),
            ]);
            assert(spec_lookup(pairs, "type"@) == Some(JsonV::Str(r.kind)));
            assert(spec_lookup(pairs, "message"@) == Some(JsonV::Str(m)));
            assert(spec_lookup(pairs, "payload"@) == Some(p));
        },
        (Some(m), None) => {
            assert(pairs =~= seq![("type"@, JsonV::Str(r.kind)), ("message"@, JsonV::Str(m))]);
            assert(spec_lookup(pairs, "type"@) == Some(JsonV::Str(r.kind)));
            assert(spec_lookup(pairs, "message"@) == Some(JsonV::Str(m)));
            assert(spec_lookup(pairs, "payload"@) is None);
        },
        (None, Some(p)) => {
            assert(pairs =~= seq![("type"@, JsonV::Str(r.kind)), ("payload"@, p)]);
            assert(spec_lookup(pairs, "type"@) == Some(JsonV::Str(r.kind)));
            assert(spec_lookup(pairs, "message"@) is None);
            assert(spec_lookup(pairs, "payload"@) == Some(p));
        },
        (None, None) => {
            assert(pairs =~= seq![("type"@, JsonV::Str(r.kind))]);
            assert(spec_lookup(pairs, "type"@) == Some(JsonV::Str(r.kind)));
            assert(spec_lookup(pairs, "message"@) is None);
            assert(spec_lookup(pairs, "payload"@) is None);
        },
    }
}

/// The same round trip for responses: the one family left out is a `data`
/// of JSON `null`, which reads back as absent.
pub proof fn lemma_response_round_trip(r: RespV)
    requires
        match r.data {
            Some(d) => wf_jsonv(d) && d != JsonV::Null,
            None => true,
        },
    ensures
        spec_decode_response(print_json(response_jsonv(r))) == Some(r),
{
    let v = response_jsonv(r);
    let pairs = v->Obj_0;
    assert(wf_jsonv(v)) by {
        assert forall|k: int| 0 <= k < pairs.len() implies wf_jsonv(#[trigger] pairs[k].1) by {
            if k == 0 {
                assert(pairs[k].1 == JsonV::Str(r.status));
            }
        }
        assert(wf_jsonv_pairs(pairs));
    }
    lemma_json_round_trip(v);
    reveal_with_fuel(spec_lookup, 5);
    reveal_strlit("status");
    reveal_strlit("data");
    assert("status"@.len() == 6);
    assert("data"@.len() == 4);
    assert("status"@ != "data"@);
    match r.data {
        Some(d) => {
            assert(pairs =~= seq![("status"@, JsonV::Str(r.status)), ("data"@, d)]);
            assert(spec_lookup(pairs, "status"@) == Some(JsonV::Str(r.status)));
            assert(spec_lookup(pairs, "data"@) == Some(d));
        },
        None => {
            assert(pairs =~= seq![("status"@, JsonV::Str(r.status))]);
            assert(spec_lookup(pairs, "status"@) == Some(JsonV::Str(r.status)));
            assert(spec_lookup(pairs, "data"@) is None);
        },
    }
}

} // verus!
