//! The control-plane dispatcher: maps one decoded request to one store
//! operation and one response, with an optional event for the GUI shell.
//!
//! The dispatcher holds no state between lines beyond the store itself;
//! the privileged-mode flag is fixed at listener start-up and passed in.
//! Unknown request kinds are deliberately answered `ok`, a forward
//! compatibility decision rather than strict validation.

use vstd::prelude::*;

use crate::codec::{spec_lookup, ReqV, Request, RespV, Response};
use crate::json::{jsonv_of, Json, JsonV};
use crate::store::{
    has_live_conv, Conversation, Database, Message, MsgV, NewConversation, NewMessage, StoreError,
};

verus! {

/// Something the dispatcher asks the GUI shell to do, out of band.
#[derive(Debug)]
pub enum ShellEvent {
    /// Show this text as a desktop notification.
    Notify(String),
    /// Forward this structured prompt payload.
    AskPayload(Json),
    /// Forward this plain-text prompt.
    AskText(String),
}

/// The model of a [`ShellEvent`].
pub ghost enum ShellEventV {
    Notify(Seq<char>),
    AskPayload(JsonV),
    AskText(Seq<char>),
}

impl View for ShellEvent {
    type V = ShellEventV;

    open spec fn view(&self) -> ShellEventV {
        match self {
            ShellEvent::Notify(s) => ShellEventV::Notify(s@),
            ShellEvent::AskPayload(p) => ShellEventV::AskPayload(jsonv_of(*p)),
            ShellEvent::AskText(s) => ShellEventV::AskText(s@),
        }
    }
}

pub open spec fn opt_ev_view(e: Option<ShellEvent>) -> Option<ShellEventV> {
    match e {
        Some(ev) => Some(ev@),
        None => None,
    }
}

/// The plain `{"status":"ok"}` response.
pub open spec fn ok_response_v() -> RespV {
    RespV { status: "ok"@, data: None }
}

/// An error response `{"status":"error","data":{"error": msg}}`.
pub open spec fn error_response_v(msg: Seq<char>) -> RespV {
    RespV { status: "error"@, data: Some(JsonV::Obj(seq![("error"@, JsonV::Str(msg))])) }
}

/// How a message rides inside a response's `data`.
pub open spec fn message_jsonv(m: MsgV) -> JsonV {
    JsonV::Obj(
        seq![
            ("id"@, JsonV::Str(m.id)),
            ("conversation_id"@, JsonV::Str(m.conversation_id)),
            ("role"@, JsonV::Str(m.role)),
            ("content"@, JsonV::Str(m.content)),
            ("timestamp"@, JsonV::Int(m.timestamp)),
            ("tokens_used"@, match m.tokens_used {
                Some(t) => JsonV::Int(t),
                None => JsonV::Null,
            }),
        ],
    )
}

fn ok_response() -> (r: Response)
    ensures
        r@ == ok_response_v(),
{
    Response { status: String::from_str("ok"), data: None }
}

fn error_response(msg: &str) -> (r: Response)
    ensures
        r@ == error_response_v(msg@),
{
    let mut pairs: Vec<(String, Json)> = Vec::new();
    pairs.push((String::from_str("error"), Json::Str(String::from_str(msg))));
    proof {
        crate::json::lemma_jsonv_of_pairs(pairs@);
        assert(crate::json::jsonv_of_pairs(pairs@) =~= seq![("error"@, JsonV::Str(msg@))]);
    }
    Response { status: String::from_str("error"), data: Some(Json::Obj(pairs)) }
}

fn message_to_json(m: &Message) -> (r: Json)
    ensures
        jsonv_of(r) == message_jsonv(m@),
{
    let mut pairs: Vec<(String, Json)> = Vec::new();
    pairs.push((String::from_str("id"), Json::Str(m.id.clone())));
    pairs.push((String::from_str("conversation_id"), Json::Str(m.conversation_id.clone())));
    pairs.push((String::from_str("role"), Json::Str(m.role.clone())));
    pairs.push((String::from_str("content"), Json::Str(m.content.clone())));
    pairs.push((String::from_str("timestamp"), Json::Int(m.timestamp)));
    pairs.push(
        (
            String::from_str("tokens_used"),
            match m.tokens_used {
                Some(t) => Json::Int(t),
                None => Json::Null,
            },
        ),
    );
    proof {
        crate::json::lemma_jsonv_of_pairs(pairs@);
        assert forall|t: int| 0 <= t < 6 implies #[trigger] crate::json::jsonv_of_pairs(pairs@)[t]
            == message_jsonv(m@)->Obj_0[t] by {
            assert(crate::json::jsonv_of_pairs(pairs@)[t] == (
                pairs@[t].0@,
                jsonv_of(pairs@[t].1),
            ));
        }
        assert(crate::json::jsonv_of_pairs(pairs@) =~= message_jsonv(m@)->Obj_0);
    }
    Json::Obj(pairs)
}

/// The content a `create` payload carries, with the documented default.
pub open spec fn payload_content(p: JsonV) -> Seq<char> {
    match p {
        JsonV::Obj(pairs) => match spec_lookup(pairs, "content"@) {
            Some(JsonV::Str(c)) => c,
            _ => "Test message"@,
        },
        _ => "Test message"@,
    }
}

/// The conversation a `create` payload targets, if it names one.
pub open spec fn payload_cid(p: JsonV) -> Option<Seq<char>> {
    match p {
        JsonV::Obj(pairs) => match spec_lookup(pairs, "conversation_id"@) {
            Some(JsonV::Str(c)) => Some(c),
            _ => None,
        },
        _ => None,
    }
}

/// What one dispatched request does: how the store, the response and the
/// shell event relate to the request, for every kind.
pub open spec fn dispatch_post(
    pre: Database,
    post: Database,
    privileged: bool,
    req: ReqV,
    resp: RespV,
    ev: Option<ShellEventV>,
) -> bool {
    let msg_text = match req.message {
        Some(m) => m,
        None => Seq::<char>::empty(),
    };
    &&& post.policy == pre.policy
    &&& post.settings@ == pre.settings@
    &&& if req.kind == "notify"@ {
        &&& post == pre
        &&& resp == ok_response_v()
        &&& ev == Some(ShellEventV::Notify(msg_text))
    } else if req.kind == "ask"@ {
        &&& post == pre
        &&& resp == ok_response_v()
        &&& ev == Some(
            match req.payload {
                Some(p) => ShellEventV::AskPayload(p),
                None => ShellEventV::AskText(msg_text),
            },
        )
    } else if req.kind == "last"@ {
        &&& post == pre
        &&& ev is None
        &&& if (exists|j: int|
            0 <= j < pre.messages@.len() && !(#[trigger] pre.messages@[j]).deleted
                && pre.messages@[j].data.role@ == "assistant"@) {
            exists|k: int|
                {
                    &&& 0 <= k < pre.messages@.len()
                    &&& !(#[trigger] pre.messages@[k]).deleted
                    &&& pre.messages@[k].data.role@ == "assistant"@
                    &&& resp == (RespV {
                        status: "ok"@,
                        data: Some(message_jsonv(pre.messages@[k].data@)),
                    })
                    &&& forall|j: int|
                        0 <= j < pre.messages@.len() && !(#[trigger] pre.messages@[j]).deleted
                            && pre.messages@[j].data.role@ == "assistant"@ ==> (
                        pre.messages@[j].data.timestamp < pre.messages@[k].data.timestamp || (
                        pre.messages@[j].data.timestamp == pre.messages@[k].data.timestamp
                            && pre.messages@[j].seq_no <= pre.messages@[k].seq_no))
                }
        } else {
            resp == error_response_v("No messages found"@)
        }
    } else if req.kind == "create"@ {
        if !privileged {
            &&& post == pre
            &&& ev is None
            &&& resp == error_response_v("create command only available in DEV_MODE"@)
        } else {
            match req.payload {
                None => {
                    &&& post == pre
                    &&& ev is None
                    &&& resp == error_response_v("No payload provided for create command"@)
                },
                Some(p) => {
                    let content = payload_content(p);
                    let cid = payload_cid(p);
                    &&& ev is None
                    &&& (resp.status == "ok"@ || resp.status == "error"@)
                    &&& (resp.status == "ok"@ ==> exists|mv: MsgV|
                        {
                            &&& #[trigger] resp.data == Some(message_jsonv(mv))
                            &&& mv.role == "assistant"@
                            &&& mv.content == content
                            &&& mv.tokens_used is None
                            &&& post.messages@.len() == pre.messages@.len() + 1
                            &&& (forall|t: int|
                                0 <= t < pre.messages@.len() ==> post.messages@[t]
                                    == pre.messages@[t])
                            &&& post.messages@.last().data@ == mv
                            &&& !post.messages@.last().deleted
                            &&& match cid {
                                Some(c) => mv.conversation_id == c && post.conversations@.len()
                                    == pre.conversations@.len(),
                                None => {
                                    &&& post.conversations@.len() == pre.conversations@.len() + 1
                                    &&& (forall|t: int|
                                        0 <= t < pre.conversations@.len()
                                            ==> post.conversations@[t] == pre.conversations@[t])
                                    &&& post.conversations@[pre.conversations@.len() as int].data@.title
                                        == "Dev Test Conversation"@
                                    &&& post.conversations@[pre.conversations@.len() as int].data@.model
                                        == "dev-model"@
                                    &&& post.conversations@[pre.conversations@.len() as int].data@.provider
                                        == "dev-provider"@
                                    &&& mv.conversation_id == post.conversations@[
                                        pre.conversations@.len() as int
                                    ].data@.id
                                },
                            }
                        })
                    &&& (resp.status == "error"@ ==> post.messages@ == pre.messages@ && exists|
                        m: Seq<char>,
                    | resp == error_response_v(m))
                    &&& (match cid {
                        Some(c) => !has_live_conv(pre.conversations@, c) ==> resp
                            == error_response_v("Conversation not found"@),
                        None => (pre.conversations@.len() == 0 && pre.messages@.len() == 0
                            && pre.next_seq < u64::MAX) ==> resp.status == "ok"@,
                    })
                },
            }
        }
    } else {
        &&& post == pre
        &&& ev is None
        &&& resp == ok_response_v()
    }
}

/// Handles one decoded request against the store.
#[verifier::rlimit(100)]
pub fn dispatch(db: &mut Database, privileged: bool, req: Request) -> (r: (
    Response,
    Option<ShellEvent>,
))
    requires
        old(db).wf(),
    ensures
        final(db).wf(),
        dispatch_post(*old(db), *final(db), privileged, req@, r.0@, opt_ev_view(r.1)),
{
    proof {
        reveal_strlit("ok");
        reveal_strlit("error");
        assert("ok"@.len() == 2);
        assert("error"@.len() == 5);
        assert("ok"@ != "error"@);
    }
    if crate::store::str_eq(req.kind.as_str(), "notify") {
        let text = match req.message {
            Some(m) => m,
            None => String::new(),
        };
        (ok_response(), Some(ShellEvent::Notify(text)))
    } else if crate::store::str_eq(req.kind.as_str(), "ask") {
        let ev = match req.payload {
            Some(p) => ShellEvent::AskPayload(p),
            None => ShellEvent::AskText(
                match req.message {
                    Some(m) => m,
                    None => String::new(),
                },
            ),
        };
        (ok_response(), Some(ev))
    } else if crate::store::str_eq(req.kind.as_str(), "last") {
        match Message::get_last_assistant_message(db) {
            Some(m) => {
                let data = message_to_json(&m);
                (Response { status: String::from_str("ok"), data: Some(data) }, None)
            },
            None => (error_response("No messages found"), None),
        }
    } else if crate::store::str_eq(req.kind.as_str(), "create") {
        if !privileged {
            return (error_response("create command only available in DEV_MODE"), None);
        }
        let payload = match req.payload {
            Some(p) => p,
            None => {
                return (error_response("No payload provided for create command"), None);
            },
        };
        let ghost pv = jsonv_of(payload);
        let content: String = match &payload {
            Json::Obj(pairs) => match crate::codec::json_lookup(pairs, "content") {
                Some(Json::Str(c)) => c.clone(),
                _ => String::from_str("Test message"),
            },
            _ => String::from_str("Test message"),
        };
        let cid: Option<String> = match &payload {
            Json::Obj(pairs) => match crate::codec::json_lookup(pairs, "conversation_id") {
                Some(Json::Str(c)) => Some(c.clone()),
                _ => None,
            },
            _ => None,
        };
        proof {
            assert(content@ == payload_content(pv));
            assert(crate::store::opt_str_view(cid) == payload_cid(pv));
        }
        let ghost had_cid = payload_cid(pv);
        let ghost mut mid0: Database = *db;
        let conversation_id: String = match cid {
            Some(c) => c,
            None => {
                let created = Conversation::create(
                    db,
                    NewConversation {
                        title: String::from_str("Dev Test Conversation"),
                        model: String::from_str("dev-model"),
                        provider: String::from_str("dev-provider"),
                        system_prompt: None,
                    },
                );
                match created {
                    Ok(c) => {
                        proof {
                            mid0 = *db;
                        }
                        c.id
                    },
                    Err(e) => {
                        let text = e.message();
                        return (error_response(text.as_str()), None);
                    },
                }
            },
        };
        let ghost cidv = conversation_id@;
        proof {
            assert(match had_cid {
                Some(c) => mid0 == *old(db) && cidv == c,
                None => {
                    &&& mid0.next_seq == old(db).next_seq
                    &&& mid0.conversations@.len() == old(db).conversations@.len() + 1
                    &&& (forall|t: int|
                        0 <= t < old(db).conversations@.len() ==> mid0.conversations@[t] == old(
                            db,
                        ).conversations@[t])
                    &&& mid0.conversations@.last().data@.id == cidv
                    &&& mid0.conversations@.last().data@.title == "Dev Test Conversation"@
                    &&& mid0.conversations@.last().data@.model == "dev-model"@
                    &&& mid0.conversations@.last().data@.provider == "dev-provider"@
                    &&& mid0.messages@ == old(db).messages@
                },
            });
        }
        let created = Message::create(
            db,
            NewMessage {
                conversation_id,
                role: String::from_str("assistant"),
                content,
                tokens_used: None,
            },
        );
        match created {
            Ok(m) => {
                proof {
                    let k = choose|k: int|
                        {
                            &&& 0 <= k < mid0.conversations@.len()
                            &&& (#[trigger] mid0.conversations@[k]).data.id@ == cidv
                            &&& db.conversations@.len() == mid0.conversations@.len()
                            &&& forall|j: int|
                                0 <= j < mid0.conversations@.len() && j != k
                                    ==> db.conversations@[j] == mid0.conversations@[j]
                            &&& db.conversations@[k].data@.updated_at >= mid0.conversations@[
                                k
                            ].data@.updated_at
                            &&& db.conversations@[k].data@ == (crate::store::ConvV {
                                updated_at: db.conversations@[k].data@.updated_at,
                                ..mid0.conversations@[k].data@
                            })
                            &&& db.conversations@[k].deleted == mid0.conversations@[k].deleted
                            &&& db.conversations@[k].deleted_at == mid0.conversations@[
                                k
                            ].deleted_at
                        };
                    if had_cid is None {
                        // the touched row can only be the conversation just created
                        let last = mid0.conversations@.len() - 1;
                        if k != last {
                            assert(mid0.conversations@[k].data.id@ == mid0.conversations@[
                                last
                            ].data.id@);
                            assert(false);
                        }
                        assert(db.conversations@[last].data@.title == "Dev Test Conversation"@);
                        assert(db.conversations@[last].data@.model == "dev-model"@);
                        assert(db.conversations@[last].data@.provider == "dev-provider"@);
                        assert(db.conversations@[last].data@.id == cidv);
                        assert(db.conversations@.len() == old(db).conversations@.len() + 1);
                        assert(forall|t: int|
                            0 <= t < old(db).conversations@.len() ==> db.conversations@[t]
                                == old(db).conversations@[t]);
                    }
                    assert(m@.conversation_id == cidv);
                    assert(db.messages@.len() == old(db).messages@.len() + 1);
                    assert(forall|t: int|
                        0 <= t < old(db).messages@.len() ==> db.messages@[t] == old(
                            db,
                        ).messages@[t]);
                    assert(db.messages@.last().data@ == m@);
                }
                let data = message_to_json(&m);
                (Response { status: String::from_str("ok"), data: Some(data) }, None)
            },
            Err(e) => {
                proof {
                    assert(db.messages@ == old(db).messages@);
                    if had_cid is None && old(db).conversations@.len() == 0 && old(
                        db,
                    ).messages@.len() == 0 && old(db).next_seq < u64::MAX {
                        // with a fresh conversation just created, no error arm is open
                        let lastk = mid0.conversations@.len() - 1;
                        assert(mid0.conversations@[lastk].data.id@ == cidv
                            && !mid0.conversations@[lastk].deleted);
                        assert(has_live_conv(mid0.conversations@, cidv));
                        assert(false);
                    }
                    match had_cid {
                        Some(c) => {
                            if !has_live_conv(old(db).conversations@, c) {
                                assert(e == StoreError::MissingConversation);
                            }
                        },
                        None => {},
                    }
                }
                let text = e.message();
                (error_response(text.as_str()), None)
            },
        }
    } else {
        (ok_response(), None)
    }
}

/// A line with nothing on it: whitespace only.
pub open spec fn is_blank(s: Seq<char>) -> bool {
    forall|i: int| 0 <= i < s.len() ==> crate::json::is_ws(#[trigger] s[i])
}

/// Handles one line read from a connection.  A blank line gets no reply; a
/// malformed line gets an error reply and leaves the store untouched, and
/// the connection stays usable; a well-formed line is dispatched.
#[verifier::loop_isolation(false)]
pub fn handle_line(db: &mut Database, privileged: bool, line: &str) -> (r: Option<
    (Response, Option<ShellEvent>),
>)
    requires
        old(db).wf(),
    ensures
        final(db).wf(),
        is_blank(line@) <==> r is None,
        r is None ==> *final(db) == *old(db),
        (!is_blank(line@) && crate::codec::spec_decode_request(line@) is None) ==> (r matches Some(
            p,
        ) && p.0@ == error_response_v("Invalid JSON"@) && p.1 is None && *final(db) == *old(db)),
        (!is_blank(line@) && crate::codec::spec_decode_request(line@) is Some) ==> (r matches Some(
            p,
        ) && dispatch_post(
            *old(db),
            *final(db),
            privileged,
            crate::codec::spec_decode_request(line@)->Some_0,
            p.0@,
            opt_ev_view(p.1),
        )),
{
    let cs = crate::ext::str_to_chars(line);
    let n = cs.len();
    let mut i: usize = 0;
    let mut blank = true;
    while i < n
        invariant
            i <= n,
            blank <==> (forall|k: int| 0 <= k < i ==> crate::json::is_ws(#[trigger] cs@[k])),
        decreases n - i,
    {
        let c = cs[i];
        if !(c == ' ' || c == '\t' || c == '\n' || c == '\r') {
            blank = false;
        }
        i = i + 1;
    }
    if blank {
        return None;
    }
    match crate::codec::decode_request(line) {
        Some(req) => Some(dispatch(db, privileged, req)),
        None => Some((error_response("Invalid JSON"), None)),
    }
}

} // verus!
