//! A server: its data, its place among the servers (proxy, master or
//! slave), and the rules by which it answers each request.
//!
//! A server's `proxy` list starts with `"y"` when it is a proxy, which
//! spreads `get` and `set` over the servers that follow in the list, or
//! with `"n"` when it is not, followed then by the proxy's address.  Its
//! `master` list starts with `"y"` when it is a master, followed by the
//! addresses of its slaves, or with `"n"` when it is a slave, followed by
//! its master's address.
//!
//! Answering a request may mean asking another server: the answer is then
//! a `Reply::Forward`, and the caller sends the request on and hands back
//! the reply it gets.  A `set` that a master stores is also passed on to
//! each of its slaves (`Outcome::replicate`), without waiting for them.

use vstd::prelude::*;
use vstd::utf8::encode_utf8;
use crate::message::{GetItemRequest, GetItemResponse, RequestView, ResponseView, text, text_is};
use crate::store::{DB, Tm, expired_keys, stamps_not_after};
use crate::text::{texts, joined, text_lines};
use crate::json::{
    string_of_json, strings_of_json, json_text_of_string, json_text_of_strings, one_line,
    parse_json_string, parse_json_strings, string_to_json, strings_to_json, lemma_string_text_one_line,
    lemma_strings_text_one_line, lemma_lines_of_joined,
};

verus! {

/// What a server holds, as mathematical values.
#[verifier::ext_equal]
pub struct ServerView {
    pub contents: Map<Seq<char>, Seq<char>>,
    pub times: Map<Seq<char>, (u128, u128)>,
    pub port: Seq<char>,
    pub proxy: Seq<Seq<char>>,
    pub master: Seq<Seq<char>>,
}

/// A request to be sent to the server at `port`.
#[verifier::ext_equal]
pub struct RelayView {
    pub port: Seq<char>,
    pub request: RequestView,
}

/// How a request is answered.
pub enum ReplyView {
    Answer(ResponseView),
    Forward(RelayView),
}

/// All that answering a request leads to.
#[verifier::ext_equal]
pub struct OutcomeView {
    pub reply: ReplyView,
    pub replicate: Seq<RelayView>,
}

/// A request to be sent to the server at `port`.
#[derive(Debug)]
pub struct Relay {
    pub port: String,
    pub request: GetItemRequest,
}

/// How a request is answered: with a response, or with the reply that
/// another server gives to the request passed on to it.
#[derive(Debug)]
pub enum Reply {
    Answer(GetItemResponse),
    Forward(Relay),
}

/// All that answering a request leads to: the reply, and the requests to
/// send to the slaves without waiting for them.
#[derive(Debug)]
pub struct Outcome {
    pub reply: Reply,
    pub replicate: Vec<Relay>,
}

impl View for Relay {
    type V = RelayView;

    open spec fn view(&self) -> RelayView {
        RelayView { port: self.port@, request: self.request@ }
    }
}

impl View for Reply {
    type V = ReplyView;

    open spec fn view(&self) -> ReplyView {
        match self {
            Reply::Answer(r) => ReplyView::Answer(r@),
            Reply::Forward(f) => ReplyView::Forward(f@),
        }
    }
}

/// The views of a list of relays.
pub open spec fn relay_views(v: Seq<Relay>) -> Seq<RelayView> {
    v.map_values(|r: Relay| r@)
}

impl View for Outcome {
    type V = OutcomeView;

    open spec fn view(&self) -> OutcomeView {
        OutcomeView { reply: self.reply@, replicate: relay_views(self.replicate@) }
    }
}

/// A response.
pub open spec fn response(op: Seq<char>, key: Seq<char>, value: Seq<char>, state: bool) -> ResponseView {
    ResponseView { op, key, value, state }
}

/// The request that a server sends to another: no lifespan and no other
/// address.
pub open spec fn relay(port: Seq<char>, op: Seq<char>, key: Seq<char>, value: Seq<char>) -> RelayView {
    RelayView { port, request: RequestView { op, key, value, life: 0, otherport: " "@ } }
}

/// An outcome that answers with `response` and passes nothing on.
pub open spec fn answer(op: Seq<char>, key: Seq<char>, value: Seq<char>, state: bool) -> OutcomeView {
    OutcomeView { reply: ReplyView::Answer(response(op, key, value, state)), replicate: Seq::empty() }
}

/// An outcome that hands back what another server replies.
pub open spec fn forward(port: Seq<char>, op: Seq<char>, key: Seq<char>, value: Seq<char>) -> OutcomeView {
    OutcomeView { reply: ReplyView::Forward(relay(port, op, key, value)), replicate: Seq::empty() }
}

/// The server to which a proxy sends requests on `key`: the first byte of
/// the key, modulo the number of servers behind the proxy, picks one of
/// them.
pub open spec fn route(key: Seq<char>, proxy: Seq<Seq<char>>) -> Seq<char> {
    proxy[1 + (encode_utf8(key)[0] as int) % (proxy.len() - 1)]
}

/// The server after dropping the keys whose lifespan has run out at `now`,
/// with their stamps.
pub open spec fn expire(s: ServerView, now: u128) -> ServerView {
    ServerView {
        contents: s.contents.remove_keys(expired_keys(s.times, now)),
        times: s.times.remove_keys(expired_keys(s.times, now)),
        ..s
    }
}

/// The requests a master passes on to its slaves when it stores `value`
/// under `key`: one `setslave` for each slave.
pub open spec fn replication(master: Seq<Seq<char>>, key: Seq<char>, value: Seq<char>) -> Seq<RelayView> {
    Seq::new((master.len() - 1) as nat, |i: int| relay(master[i + 1], "setslave"@, key, value))
}

/// The stamp of a key set with `setex` at `now` for `life` seconds.
pub open spec fn stamp(life: i32, now: u128) -> (u128, u128) {
    ((life * 1000) as u128, now)
}

/// How a server in state `s` answers request `r` at time `now`, and the
/// state it is left in.
pub open spec fn respond(s: ServerView, r: RequestView, now: u128) -> (ServerView, OutcomeView) {
    let key = r.key;
    let value = r.value;
    let blank = " "@;
    if r.op == "get"@ {
        if s.proxy[0] == "y"@ {
            (s, forward(route(key, s.proxy), "get"@, key, blank))
        } else if s.contents.contains_key(key) {
            (s, answer("get"@, key, s.contents[key], true))
        } else {
            (s, answer("get"@, key, blank, false))
        }
    } else if r.op == "getport"@ {
        if s.proxy[0] == "n"@ {
            (s, answer("getportfail"@, blank, s.proxy[1], false))
        } else {
            (s, forward(r.otherport, "get"@, key, blank))
        }
    } else if r.op == "set"@ {
        if s.proxy[0] == "y"@ {
            (s, forward(route(key, s.proxy), "set"@, key, value))
        } else if s.master[0] == "n"@ {
            (s, answer("setslave"@, key, s.master[1], false))
        } else if s.contents.contains_key(key) {
            (s, answer("set"@, key, s.contents[key], false))
        } else {
            (
                ServerView { contents: s.contents.insert(key, value), ..s },
                OutcomeView {
                    reply: ReplyView::Answer(response("set"@, key, value, true)),
                    replicate: replication(s.master, key, value),
                },
            )
        }
    } else if r.op == "setport"@ {
        if s.proxy[0] == "n"@ {
            (s, answer("setportfail"@, key, s.proxy[1], false))
        } else {
            (s, forward(r.otherport, "set"@, key, value))
        }
    } else if r.op == "setslave"@ {
        (ServerView { contents: s.contents.insert(key, value), ..s }, answer(blank, blank, blank, true))
    } else if r.op == "setex"@ {
        if s.contents.contains_key(key) {
            (s, answer("setex"@, key, s.contents[key], false))
        } else {
            (
                ServerView {
                    contents: s.contents.insert(key, value),
                    times: s.times.insert(key, stamp(r.life, now)),
                    ..s
                },
                answer("setex"@, key, blank, true),
            )
        }
    } else if r.op == "del"@ {
        if s.contents.contains_key(key) {
            (ServerView { contents: s.contents.remove(key), ..s }, answer("del"@, key, blank, true))
        } else {
            (s, answer("del"@, key, blank, false))
        }
    } else if r.op == "ping"@ {
        (s, answer("ping"@, key, blank, true))
    } else if r.op == "shutdown"@ {
        (s, answer("shutdown"@, blank, blank, true))
    } else {
        (s, answer(Seq::empty(), Seq::empty(), Seq::empty(), false))
    }
}

/// A request that a server can take: one whose handling reads no entry of
/// `proxy` or `master` that is missing, routes no empty key, divides by
/// no empty list of servers, and has no negative lifespan.
pub open spec fn accepts(s: ServerView, r: RequestView) -> bool {
    &&& r.life >= 0
    &&& r.op == "get"@ ==> s.proxy.len() >= 1 && (s.proxy[0] == "y"@ ==> s.proxy.len() >= 2
        && encode_utf8(r.key).len() > 0)
    &&& r.op == "getport"@ ==> s.proxy.len() >= 1 && (s.proxy[0] == "n"@ ==> s.proxy.len() >= 2)
    &&& r.op == "set"@ ==> s.proxy.len() >= 1 && (if s.proxy[0] == "y"@ {
        s.proxy.len() >= 2 && encode_utf8(r.key).len() > 0
    } else {
        s.master.len() >= 1 && (s.master[0] == "n"@ ==> s.master.len() >= 2)
    })
    &&& r.op == "setport"@ ==> s.proxy.len() >= 1 && (s.proxy[0] == "n"@ ==> s.proxy.len() >= 2)
}

/// A request that a server can answer at `now`: the server took no stamp
/// after `now`, and it accepts the request.
pub open spec fn answerable(s: ServerView, r: RequestView, now: u128) -> bool {
    stamps_not_after(s.times, now) && accepts(s, r)
}

/// The whole of answering a request at time `now`: the keys whose lifespan
/// has run out go first, then the request is answered.
pub open spec fn serve(s: ServerView, r: RequestView, now: u128) -> (ServerView, OutcomeView) {
    respond(expire(s, now), r, now)
}

/// The lines of a server's data file: the values and the stamps (as the
/// given JSON texts), then the address, the proxy list and the master list
/// as JSON.
pub open spec fn saved_lines(db_json: Seq<char>, tm_json: Seq<char>, s: ServerView) -> Seq<Seq<char>> {
    seq![db_json, tm_json, json_text_of_string(s.port), json_text_of_strings(s.proxy), json_text_of_strings(s.master)]
}

/// The text of a server's data file: its five lines, joined by line feeds.
pub open spec fn saved_text_of(db_json: Seq<char>, tm_json: Seq<char>, s: ServerView) -> Seq<char> {
    joined(saved_lines(db_json, tm_json, s), seq!['\n'])
}

/// The server that the lines of its data file give, with the values and
/// stamps read from the first two lines: the address, the proxy list and
/// the master list are lines three to five; `None` where there are fewer
/// lines or one of them holds no such JSON value.
pub open spec fn restored(
    contents: Map<Seq<char>, Seq<char>>,
    times: Map<Seq<char>, (u128, u128)>,
    lines: Seq<Seq<char>>,
) -> Option<ServerView> {
    if lines.len() < 5 {
        None
    } else {
        match (string_of_json(lines[2]), strings_of_json(lines[3]), strings_of_json(lines[4])) {
            (Some(port), Some(proxy), Some(master)) => Some(
                ServerView { contents, times, port, proxy, master },
            ),
            _ => None,
        }
    }
}

/// A server: its data, its address, and its place among the servers.
pub struct S {
    contents: DB,
    times: Tm,
    port: String,
    proxy: Vec<String>,
    master: Vec<String>,
}

impl View for S {
    type V = ServerView;

    closed spec fn view(&self) -> ServerView {
        ServerView {
            contents: self.contents@,
            times: self.times@,
            port: self.port@,
            proxy: texts(self.proxy@),
            master: texts(self.master@),
        }
    }
}

impl S {
    /// Well-formedness of the data.
    pub closed spec fn wf(&self) -> bool {
        self.contents.wf() && self.times.wf()
    }

    /// A server with no data.
    pub fn new(port: String, proxy: Vec<String>, master: Vec<String>) -> (s: Self)
        ensures
            s.wf(),
            s@ == (ServerView {
                contents: Map::empty(),
                times: Map::empty(),
                port: port@,
                proxy: texts(proxy@),
                master: texts(master@),
            }),
    {
        S { contents: DB::new(), times: Tm::new(), port, proxy, master }
    }

    /// A server with saved data.
    pub fn from_saved(contents: DB, times: Tm, port: String, proxy: Vec<String>, master: Vec<String>) -> (s: Self)
        requires
            contents.wf(),
            times.wf(),
        ensures
            s.wf(),
            s@ == (ServerView {
                contents: contents@,
                times: times@,
                port: port@,
                proxy: texts(proxy@),
                master: texts(master@),
            }),
    {
        S { contents, times, port, proxy, master }
    }

    /// The text of the server's data file, given the JSON texts of its
    /// values and stamps.  When those two texts are each on one line, the
    /// file splits back into its five lines, and reading them back gives the
    /// server's address and role lists again, whatever values and stamps
    /// are read from the first two.
    pub fn saved_text(&self, db_json: &str, tm_json: &str) -> (r: String)
        ensures
            r@ == saved_text_of(db_json@, tm_json@, self@),
            one_line(db_json@) && one_line(tm_json@) ==> text_lines(r@) == saved_lines(
                db_json@,
                tm_json@,
                self@,
            ),
            one_line(db_json@) && one_line(tm_json@) ==> forall|c: Map<Seq<char>, Seq<char>>, t: Map<Seq<char>, (u128, u128)>|
                #[trigger] restored(c, t, text_lines(r@)) == Some(
                    ServerView { contents: c, times: t, port: self@.port, proxy: self@.proxy, master: self@.master },
                ),
    {
        let port = string_to_json(&self.port).unwrap();
        let proxy = strings_to_json(&self.proxy).unwrap();
        let master = strings_to_json(&self.master).unwrap();
        let mut t = db_json.to_owned();
        t.append("\n");
        t.append(tm_json);
        t.append("\n");
        t.append(port.as_str());
        t.append("\n");
        t.append(proxy.as_str());
        t.append("\n");
        t.append(master.as_str());
        proof {
            let lines = saved_lines(db_json@, tm_json@, self@);
            reveal_with_fuel(joined, 5);
            reveal_strlit("\n");
            assert(lines.drop_last().drop_last().drop_last().drop_last() =~= seq![db_json@]);
            assert(lines.drop_last().drop_last().drop_last() =~= seq![db_json@, tm_json@]);
            assert(lines.drop_last().drop_last() =~= seq![db_json@, tm_json@, port@]);
            assert(lines.drop_last() =~= seq![db_json@, tm_json@, port@, proxy@]);
            assert(t@ =~= saved_text_of(db_json@, tm_json@, self@));
            if one_line(db_json@) && one_line(tm_json@) {
                lemma_string_text_one_line(self@.port);
                lemma_strings_text_one_line(self@.proxy);
                lemma_strings_text_one_line(self@.master);
                assert forall|i: int| 0 <= i < lines.len() implies one_line(#[trigger] lines[i]) by {}
                lemma_lines_of_joined(lines);
            }
        }
        t
    }

    /// The server that the lines of its data file give, with its values and
    /// stamps already read from the first two lines.
    pub fn from_saved_text(contents: DB, times: Tm, lines: &Vec<String>) -> (r: Option<Self>)
        requires
            contents.wf(),
            times.wf(),
        ensures
            match r {
                Some(s) => s.wf() && restored(contents@, times@, texts(lines@)) == Some(s@),
                None => restored(contents@, times@, texts(lines@)) is None,
            },
    {
        if lines.len() < 5 {
            return None;
        }
        let port = match parse_json_string(lines[2].as_str()) {
            Some(p) => p,
            None => return None,
        };
        let proxy = match parse_json_strings(lines[3].as_str()) {
            Some(x) => x,
            None => return None,
        };
        let master = match parse_json_strings(lines[4].as_str()) {
            Some(m) => m,
            None => return None,
        };
        Some(S::from_saved(contents, times, port, proxy, master))
    }

    /// The value of each key.
    pub fn contents(&self) -> (r: &DB)
        requires
            self.wf(),
        ensures
            r.wf(),
            r@ == self@.contents,
    {
        &self.contents
    }

    /// The stamps of the keys set with a lifespan.
    pub fn times(&self) -> (r: &Tm)
        requires
            self.wf(),
        ensures
            r.wf(),
            r@ == self@.times,
    {
        &self.times
    }

    /// The server's own address.
    pub fn port(&self) -> (r: &String)
        ensures
            r@ == self@.port,
    {
        &self.port
    }

    /// The proxy list.
    pub fn proxy(&self) -> (r: &Vec<String>)
        ensures
            texts(r@) == self@.proxy,
    {
        &self.proxy
    }

    /// The master list.
    pub fn master(&self) -> (r: &Vec<String>)
        ensures
            texts(r@) == self@.master,
    {
        &self.master
    }

    /// Whether no key was stamped after `now`, so that `check` may run at
    /// `now`.
    pub fn clock_ok(&self, now: u128) -> (b: bool)
        requires
            self.wf(),
        ensures
            b == stamps_not_after(self@.times, now),
    {
        self.times.stamps_not_after(now)
    }

    /// Drops every key whose lifespan has run out at `now`, with its stamp.
    /// `del` leaves a key's stamp in place, so a key that was deleted and set
    /// again is dropped too when its old stamp runs out.
    pub fn check(&mut self, now: u128)
        requires
            old(self).wf(),
            stamps_not_after(old(self)@.times, now),
        ensures
            final(self).wf(),
            final(self)@ == expire(old(self)@, now),
    {
        let gone = self.times.expire(now);
        self.contents.remove_all(&gone);
        assert(self@ =~= expire(old(self)@, now));
    }

    /// Whether entry `i` of `v` (a proxy or master list) has exactly the
    /// characters of `lit`.
    fn entry_is(v: &Vec<String>, i: usize, lit: &str) -> (b: bool)
        requires
            i < v@.len(),
        ensures
            b == (texts(v@)[i as int] == lit@),
    {
        text_is(&v[i], lit)
    }

    /// The address of the server behind this proxy that takes `key`.
    fn route_of(&self, key: &String) -> (port: String)
        requires
            self@.proxy.len() >= 2,
            encode_utf8(key@).len() > 0,
        ensures
            port@ == route(key@, self@.proxy),
    {
        let bytes = key.as_str().as_bytes();
        let b = bytes[0];
        let cnt = self.proxy.len() - 1;
        let which = (b as usize) % cnt;
        self.proxy[which + 1].clone()
    }

    /// Whether the server can take request `req` at `now`.
    pub fn admits(&self, req: &GetItemRequest, now: u128) -> (b: bool)
        requires
            self.wf(),
        ensures
            b == answerable(self@, req@, now),
    {
        if !self.clock_ok(now) {
            return false;
        }
        if req.life < 0 {
            return false;
        }
        let get = text_is(&req.op, "get");
        let set = text_is(&req.op, "set");
        let nonempty = req.key.as_str().as_bytes().len() > 0;
        if get || set || text_is(&req.op, "getport") || text_is(&req.op, "setport") {
            if self.proxy.len() < 1 {
                return false;
            }
        }
        if (get || set) && self.proxy.len() >= 1 && Self::entry_is(&self.proxy, 0, "y") {
            if self.proxy.len() < 2 || !nonempty {
                return false;
            }
        }
        if (text_is(&req.op, "getport") || text_is(&req.op, "setport")) && self.proxy.len() >= 1
            && Self::entry_is(&self.proxy, 0, "n") {
            if self.proxy.len() < 2 {
                return false;
            }
        }
        if set && self.proxy.len() >= 1 && !Self::entry_is(&self.proxy, 0, "y") {
            if self.master.len() < 1 {
                return false;
            }
            if Self::entry_is(&self.master, 0, "n") && self.master.len() < 2 {
                return false;
            }
        }
        true
    }

    /// Answers request `req` at time `now`: first the keys whose lifespan has
    /// run out are dropped, then the request is answered by `respond`.
    pub fn get_item(&mut self, req: &GetItemRequest, now: u128) -> (o: Outcome)
        requires
            old(self).wf(),
            stamps_not_after(old(self)@.times, now),
            accepts(old(self)@, req@),
        ensures
            final(self).wf(),
            (final(self)@, o@) == serve(old(self)@, req@, now),
    {
        self.check(now);
        self.respond(req, now)
    }

    /// Answers request `req` at time `now`, without dropping expired keys.
    pub fn respond(&mut self, req: &GetItemRequest, now: u128) -> (o: Outcome)
        requires
            old(self).wf(),
            accepts(old(self)@, req@),
        ensures
            final(self).wf(),
            (final(self)@, o@) == respond(old(self)@, req@, now),
    {
        let ghost s = self@;
        let key = &req.key;
        let value = &req.value;
        if text_is(&req.op, "get") {
            if Self::entry_is(&self.proxy, 0, "y") {
                let port = self.route_of(key);
                let o = forward_outcome(port, "get", key.clone(), text(" "));
                return o;
            } else {
                match self.contents.get(key) {
                    Some(v) => {
                        return answer_outcome("get", key.clone(), v, true);
                    },
                    None => {
                        return answer_outcome("get", key.clone(), text(" "), false);
                    },
                }
            }
        } else if text_is(&req.op, "getport") {
            if Self::entry_is(&self.proxy, 0, "n") {
                return answer_outcome("getportfail", text(" "), self.proxy[1].clone(), false);
            } else {
                return forward_outcome(req.otherport.clone(), "get", key.clone(), text(" "));
            }
        } else if text_is(&req.op, "set") {
            if Self::entry_is(&self.proxy, 0, "y") {
                let port = self.route_of(key);
                return forward_outcome(port, "set", key.clone(), value.clone());
            } else if Self::entry_is(&self.master, 0, "n") {
                return answer_outcome("setslave", key.clone(), self.master[1].clone(), false);
            } else {
                match self.contents.get(key) {
                    Some(v) => {
                        return answer_outcome("set", key.clone(), v, false);
                    },
                    None => {
                        self.contents.insert(key.clone(), value.clone());
                        let replicate = self.replication(key, value);
                        let o = Outcome {
                            reply: Reply::Answer(
                                GetItemResponse::new(text("set"), key.clone(), value.clone(), true),
                            ),
                            replicate,
                        };
                        assert(self@ =~= respond(s, req@, now).0);
                        return o;
                    },
                }
            }
        } else if text_is(&req.op, "setport") {
            if Self::entry_is(&self.proxy, 0, "n") {
                return answer_outcome("setportfail", key.clone(), self.proxy[1].clone(), false);
            } else {
                return forward_outcome(req.otherport.clone(), "set", key.clone(), value.clone());
            }
        } else if text_is(&req.op, "setslave") {
            self.contents.insert(key.clone(), value.clone());
            assert(self@ =~= respond(s, req@, now).0);
            return answer_outcome(" ", text(" "), text(" "), true);
        } else if text_is(&req.op, "setex") {
            match self.contents.get(key) {
                Some(v) => {
                    return answer_outcome("setex", key.clone(), v, false);
                },
                None => {
                    self.contents.insert(key.clone(), value.clone());
                    let life = req.life as u128;
                    self.times.insert(key.clone(), (life * 1000, now));
                    assert(self@ =~= respond(s, req@, now).0);
                    return answer_outcome("setex", key.clone(), text(" "), true);
                },
            }
        } else if text_is(&req.op, "del") {
            if self.contents.remove(key) {
                assert(self@ =~= respond(s, req@, now).0);
                return answer_outcome("del", key.clone(), text(" "), true);
            } else {
                assert(self@ =~= respond(s, req@, now).0);
                return answer_outcome("del", key.clone(), text(" "), false);
            }
        } else if text_is(&req.op, "ping") {
            return answer_outcome("ping", key.clone(), text(" "), true);
        } else if text_is(&req.op, "shutdown") {
            return answer_outcome("shutdown", text(" "), text(" "), true);
        } else {
            let o = Outcome { reply: Reply::Answer(GetItemResponse::empty()), replicate: Vec::new() };
            assert(relay_views(o.replicate@) =~= Seq::<RelayView>::empty());
            return o;
        }
    }

    /// The `setslave` requests for each slave of this master.
    fn replication(&self, key: &String, value: &String) -> (r: Vec<Relay>)
        requires
            self@.master.len() >= 1,
        ensures
            relay_views(r@) == replication(self@.master, key@, value@),
    {
        let mut r: Vec<Relay> = Vec::new();
        let mut i: usize = 1;
        while i < self.master.len()
            invariant
                1 <= i <= self.master@.len(),
                r@.len() == i - 1,
                forall|j: int| 0 <= j < i - 1 ==>
                    (#[trigger] r@[j])@ == relay(texts(self.master@)[j + 1], "setslave"@, key@, value@),
            decreases self.master@.len() - i,
        {
            let request = GetItemRequest::new(text("setslave"), key.clone(), value.clone(), 0, text(" "));
            r.push(Relay { port: self.master[i].clone(), request });
            i = i + 1;
        }
        assert(relay_views(r@) =~= replication(self@.master, key@, value@));
        r
    }
}

/// An outcome that answers with the given response and passes nothing on.
fn answer_outcome(op: &str, key: String, value: String, state: bool) -> (o: Outcome)
    ensures
        o@ == answer(op@, key@, value@, state),
{
    let o = Outcome {
        reply: Reply::Answer(GetItemResponse::new(text(op), key, value, state)),
        replicate: Vec::new(),
    };
    assert(relay_views(o.replicate@) =~= Seq::<RelayView>::empty());
    o
}

/// An outcome that passes a request on to `port` and hands back its reply.
fn forward_outcome(port: String, op: &str, key: String, value: String) -> (o: Outcome)
    ensures
        o@ == forward(port@, op@, key@, value@),
{
    let request = GetItemRequest::new(text(op), key, value, 0, text(" "));
    let o = Outcome { reply: Reply::Forward(Relay { port, request }), replicate: Vec::new() };
    assert(relay_views(o.replicate@) =~= Seq::<RelayView>::empty());
    o
}

} // verus!
