//! The client handle and the reader-loop step.
//!
//! Sending is split from writing: each `send_*` operation registers any
//! callback first, then hands back the exact line of bytes to put on the
//! wire, so a response can never arrive before its callback is in the
//! table. Reading is a pure step: `process_line` turns one inbound line
//! into the one action the I/O layer must carry out — deliver an operation,
//! run a completion callback, write a reply, or record a diagnostic and
//! carry on. A malformed line is an action like any other, never a stop.

use crate::codec::{spec_decode, spec_enc_frame, Frame, FrameV};
use crate::json::{jv, Json, JsonV, Member, MemberV};
use crate::router::{
    route, spec_known, spec_route_ok, spec_shape_ok, MeasureWidth, RouteError, RpcOperations,
};
use crate::tracker::{spec_has, spec_lookup, spec_remove_id, Tracker};
use vstd::prelude::*;
use vstd::string::StringSliceAdditionalSpecFns;

verus! {

/// The `measure_width` method name.
pub open spec fn spec_m_measure_width() -> Seq<u8> {
    seq![0x6d, 0x65, 0x61, 0x73, 0x75, 0x72, 0x65, 0x5f, 0x77, 0x69, 0x64, 0x74, 0x68]
}

/// The error payload an unknown inbound request is answered with.
pub open spec fn spec_unknown_method_msg() -> Seq<u8> {
    seq![0x75, 0x6e, 0x6b, 0x6e, 0x6f, 0x77, 0x6e, 0x20, 0x6d, 0x65, 0x74, 0x68, 0x6f, 0x64]
}


/// The `client_started` method name.
pub open spec fn spec_m_client_started() -> Seq<u8> {
    seq![0x63, 0x6c, 0x69, 0x65, 0x6e, 0x74, 0x5f, 0x73, 0x74, 0x61, 0x72, 0x74, 0x65, 0x64]
}

/// The `resize` method name.
pub open spec fn spec_m_resize() -> Seq<u8> {
    seq![0x72, 0x65, 0x73, 0x69, 0x7a, 0x65]
}

/// The `modify_user_config` method name.
pub open spec fn spec_m_modify_user_config() -> Seq<u8> {
    seq![
        0x6d, 0x6f, 0x64, 0x69, 0x66, 0x79, 0x5f, 0x75, 0x73, 0x65, 0x72, 0x5f, 0x63, 0x6f, 0x6e,
        0x66, 0x69, 0x67,
    ]
}

/// The `new_view` method name.
pub open spec fn spec_m_new_view() -> Seq<u8> {
    seq![0x6e, 0x65, 0x77, 0x5f, 0x76, 0x69, 0x65, 0x77]
}

/// The `config_dir` parameter key.
pub open spec fn spec_n_config_dir() -> Seq<u8> {
    seq![0x63, 0x6f, 0x6e, 0x66, 0x69, 0x67, 0x5f, 0x64, 0x69, 0x72]
}

/// The `client_extras_dir` parameter key.
pub open spec fn spec_n_client_extras_dir() -> Seq<u8> {
    seq![
        0x63, 0x6c, 0x69, 0x65, 0x6e, 0x74, 0x5f, 0x65, 0x78, 0x74, 0x72, 0x61, 0x73, 0x5f, 0x64,
        0x69, 0x72,
    ]
}

/// The `width` parameter key.
pub open spec fn spec_n_width() -> Seq<u8> {
    seq![0x77, 0x69, 0x64, 0x74, 0x68]
}

/// The `height` parameter key.
pub open spec fn spec_n_height() -> Seq<u8> {
    seq![0x68, 0x65, 0x69, 0x67, 0x68, 0x74]
}

/// The `domain` parameter key.
pub open spec fn spec_n_domain() -> Seq<u8> {
    seq![0x64, 0x6f, 0x6d, 0x61, 0x69, 0x6e]
}

/// The `changes` parameter key.
pub open spec fn spec_n_changes() -> Seq<u8> {
    seq![0x63, 0x68, 0x61, 0x6e, 0x67, 0x65, 0x73]
}

/// The `file_path` parameter key.
pub open spec fn spec_n_file_path() -> Seq<u8> {
    seq![0x66, 0x69, 0x6c, 0x65, 0x5f, 0x70, 0x61, 0x74, 0x68]
}

/// What an optional directory rides as: its text, or null.
pub open spec fn spec_opt_str(o: Option<&str>) -> JsonV {
    match o {
        Some(s) => JsonV::Str(s.spec_bytes()),
        None => JsonV::Null,
    }
}

/// What the reader loop must do with one inbound line.
#[derive(Debug, PartialEq, Eq)]
pub enum Action<C> {
    /// A routed notification: push it onto the operations stream, in order.
    Deliver(RpcOperations),
    /// A matched response: run this callback, once, with this result —
    /// after the client's lock is released.
    Complete(C, Result<Json, Json>),
    /// A response no request is waiting for: note it and drop it.
    Stale(u64),
    /// A request the peer made of us that only the windowing layer can
    /// answer: hand it over; the answer goes back through `respond`.
    Inbound(RpcOperations),
    /// A reply line to write back at once (an unknown inbound request is
    /// still answered, with an error payload — the peer is waiting).
    Reply(Vec<u8>),
    /// A notification that could not be routed: record the reason and
    /// carry on with the next line.
    Unrouted(RouteError),
    /// A line that is not a frame: record it and carry on with the next
    /// line.
    Malformed,
}

/// The client's half of the protocol state: the request tracker and
/// whether the transport is still believed alive. `C` is the callback
/// representation; the surrounding I/O layer runs callbacks, the client
/// only correlates them.
pub struct Client<C> {
    tracker: Tracker<C>,
    connected: bool,
}

impl<C> Client<C> {
    /// The identifier the next request will take.
    pub closed spec fn spec_next_id(&self) -> u64 {
        self.tracker.spec_next_id()
    }

    /// The in-flight requests, in send order.
    pub closed spec fn spec_pending(&self) -> Seq<(u64, C)> {
        self.tracker.spec_pending()
    }

    /// Whether the transport is still believed alive.
    pub closed spec fn spec_connected(&self) -> bool {
        self.connected
    }

    /// The tracker's internal invariant.
    pub closed spec fn wf(&self) -> bool {
        self.tracker.wf()
    }

    /// A fresh client: connected, no requests in flight, counting from
    /// zero.
    pub fn new() -> (r: Client<C>)
        ensures
            r.wf(),
            r.spec_connected(),
            r.spec_next_id() == 0,
            r.spec_pending() == Seq::<(u64, C)>::empty(),
    {
        Client { tracker: Tracker::new(), connected: true }
    }

    /// Whether the transport is still believed alive.
    pub fn is_connected(&self) -> (r: bool)
        ensures
            r == self.spec_connected(),
    {
        self.connected
    }

    /// The identifier the next request will take; a caller that must not
    /// panic checks it against the counter's ceiling before sending.
    pub fn next_request_id(&self) -> (r: u64)
        ensures
            r == self.spec_next_id(),
    {
        self.tracker.next_request_id()
    }

    /// How many requests are in flight.
    pub fn pending_count(&self) -> (r: usize)
        ensures
            r == self.spec_pending().len(),
    {
        self.tracker.pending_count()
    }

    /// Serializes one notification frame. The caller writes the returned
    /// line to the transport and treats a failed write as connection loss.
    pub fn send_notification(&mut self, method: &str, params: Json) -> (line: Vec<u8>)
        ensures
            *final(self) == *old(self),
            line@ == spec_enc_frame(
                FrameV::Notification { method: method.spec_bytes(), params: jv(params) },
            ),
    {
        let mut line: Vec<u8> = Vec::new();
        let m = vstd::slice::slice_to_vec(method.as_bytes());
        crate::codec::encode_frame(Frame::Notification { method: m, params }, &mut line);
        proof {
            assert(line@ =~= spec_enc_frame(
                FrameV::Notification { method: method.spec_bytes(), params: jv(params) },
            ));
        }
        line
    }

    /// Registers `callback` under a fresh identifier, then serializes the
    /// request frame bearing it. Registration comes before the caller can
    /// possibly write the line, so the response cannot race ahead of the
    /// callback. The callback is not run here: it fires exactly once,
    /// from the reader loop, when the response with this identifier
    /// arrives.
    pub fn send_request(&mut self, method: &str, params: Json, callback: C) -> (r: (u64, Vec<u8>))
        requires
            old(self).wf(),
            old(self).spec_next_id() < u64::MAX,
        ensures
            final(self).wf(),
            final(self).spec_connected() == old(self).spec_connected(),
            r.0 == old(self).spec_next_id(),
            !spec_has(old(self).spec_pending(), r.0),
            final(self).spec_next_id() == old(self).spec_next_id() + 1,
            final(self).spec_pending() == old(self).spec_pending().push((r.0, callback)),
            spec_lookup(final(self).spec_pending(), r.0) == Some(callback),
            r.1@ == spec_enc_frame(
                FrameV::Request {
                    method: method.spec_bytes(),
                    params: jv(params),
                    id: r.0,
                },
            ),
    {
        let ghost pv = jv(params);
        let id = self.tracker.register(callback);
        let mut line: Vec<u8> = Vec::new();
        let m = vstd::slice::slice_to_vec(method.as_bytes());
        crate::codec::encode_frame(Frame::Request { method: m, params, id }, &mut line);
        proof {
            assert(line@ =~= spec_enc_frame(
                FrameV::Request { method: method.spec_bytes(), params: pv, id },
            ));
        }
        (id, line)
    }

    /// Tells the engine the client is up, with its configuration
    /// directories; a missing directory rides as a JSON null.
    pub fn client_started(
        &mut self,
        config_dir: Option<&str>,
        client_extras_dir: Option<&str>,
    ) -> (line: Vec<u8>)
        ensures
            *final(self) == *old(self),
            line@ == spec_enc_frame(
                FrameV::Notification {
                    method: spec_m_client_started(),
                    params: JsonV::Obj(
                        seq![
                            MemberV {
                                key: spec_n_config_dir(),
                                value: spec_opt_str(config_dir),
                            },
                            MemberV {
                                key: spec_n_client_extras_dir(),
                                value: spec_opt_str(client_extras_dir),
                            },
                        ],
                    ),
                },
            ),
    {
        let mut ms: Vec<Member> = Vec::new();
        let k1: &str = "config_dir";
        let k2: &str = "client_extras_dir";
        let m: &str = "client_started";
        proof {
            reveal_strlit("config_dir");
            reveal_strlit("client_extras_dir");
            reveal_strlit("client_started");
            assert(k1.is_ascii() && k2.is_ascii() && m.is_ascii());
            assert(k1.spec_bytes() =~= spec_n_config_dir());
            assert(k2.spec_bytes() =~= spec_n_client_extras_dir());
            assert(m.spec_bytes() =~= spec_m_client_started());
        }
        let v1 = match config_dir {
            Some(d) => Json::Str(vstd::slice::slice_to_vec(d.as_bytes())),
            None => Json::Null,
        };
        let v2 = match client_extras_dir {
            Some(d) => Json::Str(vstd::slice::slice_to_vec(d.as_bytes())),
            None => Json::Null,
        };
        ms.push(Member { key: vstd::slice::slice_to_vec(k1.as_bytes()), value: v1 });
        ms.push(Member { key: vstd::slice::slice_to_vec(k2.as_bytes()), value: v2 });
        let ghost msg = ms@;
        let params = Json::Obj(ms);
        proof {
            crate::json::lemma_jv_members_props(msg);
            assert(crate::json::jv_members(msg) =~= seq![
                MemberV { key: spec_n_config_dir(), value: spec_opt_str(config_dir) },
                MemberV {
                    key: spec_n_client_extras_dir(),
                    value: spec_opt_str(client_extras_dir),
                },
            ]);
        }
        self.send_notification(m, params)
    }

    /// Tells the engine the window size changed.
    pub fn resize(&mut self, width: u32, height: u32) -> (line: Vec<u8>)
        ensures
            *final(self) == *old(self),
            line@ == spec_enc_frame(
                FrameV::Notification {
                    method: spec_m_resize(),
                    params: JsonV::Obj(
                        seq![
                            MemberV {
                                key: spec_n_width(),
                                value: JsonV::Num(crate::json::spec_dec_of(width as nat)),
                            },
                            MemberV {
                                key: spec_n_height(),
                                value: JsonV::Num(crate::json::spec_dec_of(height as nat)),
                            },
                        ],
                    ),
                },
            ),
    {
        let k1: &str = "width";
        let k2: &str = "height";
        let m: &str = "resize";
        proof {
            reveal_strlit("width");
            reveal_strlit("height");
            reveal_strlit("resize");
            assert(k1.is_ascii() && k2.is_ascii() && m.is_ascii());
            assert(k1.spec_bytes() =~= spec_n_width());
            assert(k2.spec_bytes() =~= spec_n_height());
            assert(m.spec_bytes() =~= spec_m_resize());
        }
        let mut wlex: Vec<u8> = Vec::new();
        crate::json::push_dec(width as u64, &mut wlex);
        let mut hlex: Vec<u8> = Vec::new();
        crate::json::push_dec(height as u64, &mut hlex);
        proof {
            assert(wlex@ =~= crate::json::spec_dec_of(width as nat));
            assert(hlex@ =~= crate::json::spec_dec_of(height as nat));
        }
        let mut ms: Vec<Member> = Vec::new();
        ms.push(Member { key: vstd::slice::slice_to_vec(k1.as_bytes()), value: Json::Num(wlex) });
        ms.push(Member { key: vstd::slice::slice_to_vec(k2.as_bytes()), value: Json::Num(hlex) });
        let ghost msg = ms@;
        let params = Json::Obj(ms);
        proof {
            crate::json::lemma_jv_members_props(msg);
            assert(crate::json::jv_members(msg) =~= seq![
                MemberV {
                    key: spec_n_width(),
                    value: JsonV::Num(crate::json::spec_dec_of(width as nat)),
                },
                MemberV {
                    key: spec_n_height(),
                    value: JsonV::Num(crate::json::spec_dec_of(height as nat)),
                },
            ]);
        }
        self.send_notification(m, params)
    }

    /// Changes one domain of the engine's user configuration.
    pub fn modify_user_config_domain(&mut self, domain: &str, changes: Json) -> (line: Vec<u8>)
        ensures
            *final(self) == *old(self),
            line@ == spec_enc_frame(
                FrameV::Notification {
                    method: spec_m_modify_user_config(),
                    params: JsonV::Obj(
                        seq![
                            MemberV { key: spec_n_domain(), value: JsonV::Str(domain.spec_bytes()) },
                            MemberV { key: spec_n_changes(), value: jv(changes) },
                        ],
                    ),
                },
            ),
    {
        let ghost cv = jv(changes);
        let k1: &str = "domain";
        let k2: &str = "changes";
        let m: &str = "modify_user_config";
        proof {
            reveal_strlit("domain");
            reveal_strlit("changes");
            reveal_strlit("modify_user_config");
            assert(k1.is_ascii() && k2.is_ascii() && m.is_ascii());
            assert(k1.spec_bytes() =~= spec_n_domain());
            assert(k2.spec_bytes() =~= spec_n_changes());
            assert(m.spec_bytes() =~= spec_m_modify_user_config());
        }
        let mut ms: Vec<Member> = Vec::new();
        ms.push(Member {
            key: vstd::slice::slice_to_vec(k1.as_bytes()),
            value: Json::Str(vstd::slice::slice_to_vec(domain.as_bytes())),
        });
        ms.push(Member { key: vstd::slice::slice_to_vec(k2.as_bytes()), value: changes });
        let ghost msg = ms@;
        let params = Json::Obj(ms);
        proof {
            crate::json::lemma_jv_members_props(msg);
            assert(crate::json::jv_members(msg) =~= seq![
                MemberV { key: spec_n_domain(), value: JsonV::Str(domain.spec_bytes()) },
                MemberV { key: spec_n_changes(), value: cv },
            ]);
        }
        self.send_notification(m, params)
    }

    /// Asks the engine to open a view of the given file. The callback
    /// fires later, from the reader loop, with the view identifier the
    /// engine assigned.
    pub fn new_view(&mut self, file_path: &str, callback: C) -> (r: (u64, Vec<u8>))
        requires
            old(self).wf(),
            old(self).spec_next_id() < u64::MAX,
        ensures
            final(self).wf(),
            r.0 == old(self).spec_next_id(),
            final(self).spec_next_id() == old(self).spec_next_id() + 1,
            final(self).spec_pending() == old(self).spec_pending().push((r.0, callback)),
            r.1@ == spec_enc_frame(
                FrameV::Request {
                    method: spec_m_new_view(),
                    params: JsonV::Obj(
                        seq![
                            MemberV {
                                key: spec_n_file_path(),
                                value: JsonV::Str(file_path.spec_bytes()),
                            },
                        ],
                    ),
                    id: r.0,
                },
            ),
    {
        let k1: &str = "file_path";
        let m: &str = "new_view";
        proof {
            reveal_strlit("file_path");
            reveal_strlit("new_view");
            assert(k1.is_ascii() && m.is_ascii());
            assert(k1.spec_bytes() =~= spec_n_file_path());
            assert(m.spec_bytes() =~= spec_m_new_view());
        }
        let ghost fpv = file_path.spec_bytes();
        let mut ms: Vec<Member> = Vec::new();
        ms.push(Member {
            key: vstd::slice::slice_to_vec(k1.as_bytes()),
            value: Json::Str(vstd::slice::slice_to_vec(file_path.as_bytes())),
        });
        let ghost msg = ms@;
        let params = Json::Obj(ms);
        proof {
            crate::json::lemma_jv_members_props(msg);
            assert(crate::json::jv_members(msg) =~= seq![
                MemberV { key: spec_n_file_path(), value: JsonV::Str(fpv) },
            ]);
        }
        self.send_request(m, params, callback)
    }

    /// Serializes a response frame, for answering the peer's own requests.
    pub fn respond(&mut self, id: u64, result: Result<Json, Json>) -> (line: Vec<u8>)
        ensures
            *final(self) == *old(self),
            line@ == spec_enc_frame(
                FrameV::Response {
                    id,
                    result: match result {
                        Ok(v) => Ok(jv(v)),
                        Err(e) => Err(jv(e)),
                    },
                },
            ),
    {
        let ghost rv: Result<JsonV, JsonV> = match &result {
            Ok(v) => Ok(jv(*v)),
            Err(e) => Err(jv(*e)),
        };
        let mut line: Vec<u8> = Vec::new();
        crate::codec::encode_frame(Frame::Response { id, result }, &mut line);
        proof {
            assert(line@ =~= spec_enc_frame(FrameV::Response { id, result: rv }));
        }
        line
    }

    /// Marks the transport dead and hands back every pending entry, in
    /// send order, so the caller can resolve each callback with a failure
    /// rather than dropping it silently.
    pub fn disconnect(&mut self) -> (r: Vec<(u64, C)>)
        requires
            old(self).wf(),
        ensures
            final(self).wf(),
            !final(self).spec_connected(),
            final(self).spec_pending() == Seq::<(u64, C)>::empty(),
            final(self).spec_next_id() == old(self).spec_next_id(),
            r@ == old(self).spec_pending(),
    {
        self.connected = false;
        self.tracker.drain()
    }

    /// Routes one notification through the table of known methods, as a
    /// recoverable classification: an unknown or ill-shaped one is an
    /// error value, never an abort.
    pub fn handle_notification(method: Vec<u8>, params: Json) -> (r: Result<
        RpcOperations,
        RouteError,
    >)
        ensures
            match r {
                Ok(op) => spec_known(method@) && spec_shape_ok(method@, jv(params))
                    && spec_route_ok(method@, jv(params), op),
                Err(RouteError::UnknownMethod(m2)) => m2@ == method@ && !spec_known(method@),
                Err(RouteError::InvalidPayload) => spec_known(method@) && !spec_shape_ok(
                    method@,
                    jv(params),
                ),
            },
    {
        route(method, params)
    }

    /// Handles a request the peer makes of the client. The one method the
    /// peer is known to ask — measuring rendered text — becomes an inbound
    /// operation carrying the request identifier, for the windowing layer
    /// to answer through `respond`. Any other method is answered at once
    /// with an error payload: the peer is blocked waiting, so the request
    /// is never dropped silently, and the connection stays open.
    pub fn handle_request(&mut self, method: Vec<u8>, params: Json, id: u64) -> (r: Action<C>)
        ensures
            *final(self) == *old(self),
            method@ == spec_m_measure_width() ==> (r matches Action::Inbound(op) && (
            op matches RpcOperations::MeasureWidth(mw) && mw.0 == id && jv(mw.1.queries) == jv(
                params,
            ))),
            method@ != spec_m_measure_width() ==> (r matches Action::Reply(line) && line@
                == spec_enc_frame(
                FrameV::Response { id, result: Err(JsonV::Str(spec_unknown_method_msg())) },
            )),
    {
        let pat: &str = "measure_width";
        proof {
            reveal_strlit("measure_width");
            assert(pat.is_ascii());
            assert(pat.spec_bytes() =~= spec_m_measure_width());
        }
        let patv = vstd::slice::slice_to_vec(pat.as_bytes());
        if crate::codec::bytes_eq(&method, patv.as_slice()) {
            Action::Inbound(RpcOperations::MeasureWidth((id, MeasureWidth { queries: params })))
        } else {
            let msg: &str = "unknown method";
            proof {
                reveal_strlit("unknown method");
                assert(msg.is_ascii());
                assert(msg.spec_bytes() =~= spec_unknown_method_msg());
            }
            let payload = Json::Str(vstd::slice::slice_to_vec(msg.as_bytes()));
            let line = self.respond(id, Err(payload));
            Action::Reply(line)
        }
    }

    /// Takes one response: removes and returns the callback registered
    /// under its identifier, if any, together with the result. A response
    /// nothing waits for is reported as such, not an error — its request
    /// may have been abandoned.
    pub fn handle_response(&mut self, id: u64, result: Result<Json, Json>) -> (r: Action<C>)
        requires
            old(self).wf(),
        ensures
            final(self).wf(),
            final(self).spec_connected() == old(self).spec_connected(),
            final(self).spec_next_id() == old(self).spec_next_id(),
            spec_has(old(self).spec_pending(), id) ==> (r matches Action::Complete(cb, res)
                && Some(cb) == spec_lookup(old(self).spec_pending(), id) && res == result
                && final(self).spec_pending() == spec_remove_id(old(self).spec_pending(), id)),
            !spec_has(old(self).spec_pending(), id) ==> (r matches Action::Stale(sid) && sid
                == id && final(self).spec_pending() == old(self).spec_pending()),
            !spec_has(final(self).spec_pending(), id),
    {
        match self.tracker.resolve(id) {
            Some(cb) => Action::Complete(cb, result),
            None => Action::Stale(id),
        }
    }

    /// The reader loop's step: one inbound line to the one action it
    /// demands. Every line has an action — a malformed line or an unknown
    /// method yields a diagnostic action, never a stop and never a panic,
    /// so the loop can always go on to the next line.
    pub fn process_line(&mut self, line: &[u8]) -> (r: Action<C>)
        requires
            old(self).wf(),
        ensures
            final(self).wf(),
            final(self).spec_connected() == old(self).spec_connected(),
            final(self).spec_next_id() == old(self).spec_next_id(),
            spec_line_step(old(self).spec_pending(), final(self).spec_pending(), line@, r),
    {
        match crate::codec::decode_frame(line) {
            Err(_) => Action::Malformed,
            Ok(f) => match f {
                Frame::Notification { method, params } => {
                    match route(method, params) {
                        Ok(op) => Action::Deliver(op),
                        Err(e) => Action::Unrouted(e),
                    }
                },
                Frame::Response { id, result } => self.handle_response(id, result),
                Frame::Request { method, params, id } => self.handle_request(method, params, id),
            },
        }
    }

    /// Processes a batch of inbound lines in arrival order: one action per
    /// line, the i-th action answering the i-th line. Notifications
    /// therefore reach the consumer in exactly the relative order the peer
    /// wrote them on the wire, and a malformed line — which yields its
    /// diagnostic action — never keeps the lines after it from being
    /// processed.
    pub fn process_lines(&mut self, lines: &Vec<Vec<u8>>) -> (r: Vec<Action<C>>)
        requires
            old(self).wf(),
        ensures
            final(self).wf(),
            final(self).spec_connected() == old(self).spec_connected(),
            r@.len() == lines@.len(),
            forall|i: int|
                0 <= i < lines@.len() ==> spec_line_outcome(lines@[i]@, #[trigger] r@[i]),
    {
        let n = lines.len();
        let mut r: Vec<Action<C>> = Vec::new();
        let mut i: usize = 0;
        while i < n
            invariant
                i <= n,
                n == lines@.len(),
                self.wf(),
                self.spec_connected() == old(self).spec_connected(),
                r@.len() == i,
                forall|j: int|
                    0 <= j < i ==> spec_line_outcome(lines@[j]@, #[trigger] r@[j]),
            decreases n - i,
        {
            let ghost pre = self.spec_pending();
            let a = self.process_line(lines[i].as_slice());
            proof {
                lemma_step_outcome(pre, self.spec_pending(), lines@[i as int]@, a);
            }
            r.push(a);
            i = i + 1;
        }
        r
    }
}

/// The state-independent face of one reader-loop step: what action answers
/// the line, whatever was pending.
pub open spec fn spec_line_outcome<C>(line: Seq<u8>, r: Action<C>) -> bool {
    match spec_decode(line) {
        Err(_) => r is Malformed,
        Ok(fr) => match fr {
            FrameV::Notification { method, params } => if spec_known(method) && spec_shape_ok(
                method,
                params,
            ) {
                r matches Action::Deliver(op) && spec_route_ok(method, params, op)
            } else if !spec_known(method) {
                r matches Action::Unrouted(e) && (e matches RouteError::UnknownMethod(m2)
                    && m2@ == method)
            } else {
                r == Action::<C>::Unrouted(RouteError::InvalidPayload)
            },
            FrameV::Response { id, result } => (r matches Action::Complete(cb, res) && (match res {
                Ok(v) => result == Ok::<JsonV, JsonV>(jv(v)),
                Err(e) => result == Err::<JsonV, JsonV>(jv(e)),
            })) || (r matches Action::Stale(sid) && sid == id),
            FrameV::Request { method, params, id } => if method == spec_m_measure_width() {
                r matches Action::Inbound(op) && (op matches RpcOperations::MeasureWidth(mw)
                    && mw.0 == id && jv(mw.1.queries) == params)
            } else {
                r matches Action::Reply(rep) && rep@ == spec_enc_frame(
                    FrameV::Response { id, result: Err(JsonV::Str(spec_unknown_method_msg())) },
                )
            },
        },
    }
}

/// One step's relation implies its state-independent face.
proof fn lemma_step_outcome<C>(pre: Seq<(u64, C)>, post: Seq<(u64, C)>, line: Seq<u8>, r: Action<
    C,
>)
    requires
        spec_line_step(pre, post, line, r),
    ensures
        spec_line_outcome(line, r),
{
}

/// What one reader-loop step does, as a relation between the pending table
/// before and after, the line, and the action taken.
pub open spec fn spec_line_step<C>(
    pre: Seq<(u64, C)>,
    post: Seq<(u64, C)>,
    line: Seq<u8>,
    r: Action<C>,
) -> bool {
    match spec_decode(line) {
        Err(_) => r is Malformed && post == pre,
        Ok(fr) => match fr {
            FrameV::Notification { method, params } => post == pre && if spec_known(method)
                && spec_shape_ok(method, params) {
                r matches Action::Deliver(op) && spec_route_ok(method, params, op)
            } else if !spec_known(method) {
                r matches Action::Unrouted(e) && (e matches RouteError::UnknownMethod(m2)
                    && m2@ == method)
            } else {
                r == Action::<C>::Unrouted(RouteError::InvalidPayload)
            },
            FrameV::Response { id, result } => if spec_has(pre, id) {
                r matches Action::Complete(cb, res) && Some(cb) == spec_lookup(pre, id) && (match
                    res {
                    Ok(v) => result == Ok::<JsonV, JsonV>(jv(v)),
                    Err(e) => result == Err::<JsonV, JsonV>(jv(e)),
                }) && post == spec_remove_id(pre, id)
            } else {
                r matches Action::Stale(sid) && sid == id && post == pre
            },
            FrameV::Request { method, params, id } => post == pre && if method
                == spec_m_measure_width() {
                r matches Action::Inbound(op) && (op matches RpcOperations::MeasureWidth(mw)
                    && mw.0 == id && jv(mw.1.queries) == params)
            } else {
                r matches Action::Reply(rep) && rep@ == spec_enc_frame(
                    FrameV::Response { id, result: Err(JsonV::Str(spec_unknown_method_msg())) },
                )
            },
        },
    }
}

} // verus!
