//! What holds of the server across requests: reads give back writes, a
//! `set` never overwrites, deletes and expiry make keys go away, a proxy
//! sends every request on a key to the same server, and slaves that take
//! their master's `setslave` requests keep the master's data.

use vstd::prelude::*;
use crate::message::RequestView;
use crate::server::{answerable, accepts, ServerView, ReplyView, response, answer, expire, serve, respond, route, stamp};
use crate::store::{expired, expired_keys, stamps_not_after};
use crate::config::example_servers;
use crate::json::ServerInfoView;
use crate::text::{parsed_i32, decimal, all_digits, digit_value};
use crate::client::{command_of, CommandView, shown_of, ShownView, request};

verus! {

/// The names of the operations differ from each other, and `"y"` from `"n"`.
pub proof fn lemma_names_differ()
    ensures
        "get"@ != "getport"@,
        "get"@ != "set"@,
        "get"@ != "setport"@,
        "get"@ != "setslave"@,
        "get"@ != "setex"@,
        "get"@ != "del"@,
        "get"@ != "ping"@,
        "get"@ != "shutdown"@,
        "getport"@ != "set"@,
        "getport"@ != "setport"@,
        "getport"@ != "setslave"@,
        "getport"@ != "setex"@,
        "getport"@ != "del"@,
        "getport"@ != "ping"@,
        "getport"@ != "shutdown"@,
        "set"@ != "setport"@,
        "set"@ != "setslave"@,
        "set"@ != "setex"@,
        "set"@ != "del"@,
        "set"@ != "ping"@,
        "set"@ != "shutdown"@,
        "setport"@ != "setslave"@,
        "setport"@ != "setex"@,
        "setport"@ != "del"@,
        "setport"@ != "ping"@,
        "setport"@ != "shutdown"@,
        "setslave"@ != "setex"@,
        "setslave"@ != "del"@,
        "setslave"@ != "ping"@,
        "setslave"@ != "shutdown"@,
        "setex"@ != "del"@,
        "setex"@ != "ping"@,
        "setex"@ != "shutdown"@,
        "del"@ != "ping"@,
        "del"@ != "shutdown"@,
        "ping"@ != "shutdown"@,
        "y"@ != "n"@,
{
    reveal_strlit("get");
    reveal_strlit("getport");
    reveal_strlit("set");
    reveal_strlit("setport");
    reveal_strlit("setslave");
    reveal_strlit("setex");
    reveal_strlit("del");
    reveal_strlit("ping");
    reveal_strlit("shutdown");
    reveal_strlit("y");
    reveal_strlit("n");
    assert("get"@.len() == 3 && "set"@.len() == 3 && "del"@.len() == 3);
    assert("getport"@.len() == 7 && "setport"@.len() == 7);
    assert("setslave"@.len() == 8 && "shutdown"@.len() == 8);
    assert("setex"@.len() == 5 && "ping"@.len() == 4);
    assert("get"@[0] != "set"@[0] && "get"@[0] != "del"@[0] && "set"@[0] != "del"@[0]);
    assert("getport"@[0] != "setport"@[0]);
    assert("setslave"@[1] != "shutdown"@[1]);
    assert("y"@[0] != "n"@[0]);
    assert("setport"@[3] != "setslave"@[3]);
}

/// A server that keeps its own data: it is no proxy, and it is a master.
pub open spec fn keeps_data(s: ServerView) -> bool {
    &&& s.proxy.len() >= 1
    &&& s.proxy[0] != "y"@
    &&& s.master.len() >= 1
    &&& s.master[0] != "n"@
}

/// A read gives back a write: on a server that keeps its own data, a `set`
/// of a new key succeeds, adds no stamp, and a later `get` of that key can
/// be answered and answers the value set, as long as no stamp that the key
/// had before runs out by then.
pub proof fn law_get_returns_set(
    s: ServerView,
    set_req: RequestView,
    get_req: RequestView,
    now1: u128,
    now2: u128,
)
    requires
        answerable(s, set_req, now1),
        now1 <= now2,
        get_req.life >= 0,
        keeps_data(s),
        set_req.op == "set"@,
        get_req.op == "get"@,
        get_req.key == set_req.key,
        !expire(s, now1).contents.contains_key(set_req.key),
        s.times.contains_key(set_req.key) ==> !expired(s.times[set_req.key], now2),
    ensures
        serve(s, set_req, now1).1.reply == ReplyView::Answer(
            response("set"@, set_req.key, set_req.value, true),
        ),
        serve(s, set_req, now1).0.times.dom().subset_of(s.times.dom()),
        answerable(serve(s, set_req, now1).0, get_req, now2),
        serve(serve(s, set_req, now1).0, get_req, now2).1 == answer(
            "get"@,
            set_req.key,
            set_req.value,
            true,
        ),
{
    lemma_names_differ();
    lemma_stamp_kept(s, set_req.key, now1, now2);
    let s1 = serve(s, set_req, now1).0;
    assert(stamps_not_after(s1.times, now2));
    assert(!expired_keys(s1.times, now2).contains(set_req.key));
}

/// A key whose stamp has not run out by `now2` keeps that stamp through an
/// expiry at an earlier `now1`, and no stamp is after `now2` once none is
/// after `now1`.
pub proof fn lemma_stamp_kept(s: ServerView, k: Seq<char>, now1: u128, now2: u128)
    requires
        stamps_not_after(s.times, now1),
        now1 <= now2,
        s.times.contains_key(k) ==> !expired(s.times[k], now2),
    ensures
        s.times.contains_key(k) ==> expire(s, now1).times.contains_key(k) && expire(s, now1).times[k]
            == s.times[k],
        stamps_not_after(expire(s, now1).times, now2),
{
}

/// A `set` never overwrites: on a server that keeps its own data, a `set`
/// of a key that is held answers the value held, fails, and changes
/// nothing but the expiry.
pub proof fn law_set_keeps_existing(s: ServerView, r: RequestView, now: u128)
    requires
        answerable(s, r, now),
        keys_data_and_holds(s, r, now),
        r.op == "set"@,
    ensures
        serve(s, r, now) == (
            expire(s, now),
            answer("set"@, r.key, expire(s, now).contents[r.key], false),
        ),
{
    lemma_names_differ();
}

/// The server keeps its own data and, once expiry has run at `now`, holds
/// the key of `r`.
pub open spec fn keys_data_and_holds(s: ServerView, r: RequestView, now: u128) -> bool {
    keeps_data(s) && expire(s, now).contents.contains_key(r.key)
}

/// `setex` never overwrites either, on any server: a held key keeps its
/// value and the request fails.
pub proof fn law_setex_keeps_existing(s: ServerView, r: RequestView, now: u128)
    requires
        answerable(s, r, now),
        r.op == "setex"@,
        expire(s, now).contents.contains_key(r.key),
    ensures
        serve(s, r, now) == (
            expire(s, now),
            answer("setex"@, r.key, expire(s, now).contents[r.key], false),
        ),
{
    lemma_names_differ();
}

/// A deleted key is gone: after a `del`, a `get` of the same key on a
/// server that is no proxy finds nothing.
pub proof fn law_get_after_del(s: ServerView, del_req: RequestView, get_req: RequestView, now1: u128, now2: u128)
    requires
        answerable(s, del_req, now1),
        answerable(serve(s, del_req, now1).0, get_req, now2),
        s.proxy.len() >= 1,
        s.proxy[0] != "y"@,
        del_req.op == "del"@,
        get_req.op == "get"@,
        get_req.key == del_req.key,
    ensures
        serve(serve(s, del_req, now1).0, get_req, now2).1 == answer("get"@, del_req.key, " "@, false),
{
    lemma_names_differ();
}

/// A key set with a lifespan is there until the lifespan has run out and
/// gone after: with `setex` at `now1` and a `get` at `now2`, the `get`
/// answers the value while no more than the lifespan has passed, and finds
/// nothing once more has passed.
pub proof fn law_setex_lifespan(
    s: ServerView,
    setex_req: RequestView,
    get_req: RequestView,
    now1: u128,
    now2: u128,
)
    requires
        answerable(s, setex_req, now1),
        answerable(serve(s, setex_req, now1).0, get_req, now2),
        s.proxy.len() >= 1,
        s.proxy[0] != "y"@,
        setex_req.op == "setex"@,
        setex_req.life >= 0,
        get_req.op == "get"@,
        get_req.key == setex_req.key,
        !expire(s, now1).contents.contains_key(setex_req.key),
        now1 <= now2,
    ensures
        serve(s, setex_req, now1).1 == answer("setex"@, setex_req.key, " "@, true),
        now2 - now1 <= setex_req.life * 1000 ==> serve(serve(s, setex_req, now1).0, get_req, now2).1
            == answer("get"@, setex_req.key, setex_req.value, true),
        now2 - now1 > setex_req.life * 1000 ==> serve(serve(s, setex_req, now1).0, get_req, now2).1
            == answer("get"@, setex_req.key, " "@, false),
{
    lemma_names_differ();
    let s1 = serve(s, setex_req, now1).0;
    assert(s1.times[setex_req.key] == stamp(setex_req.life, now1));
    assert(stamp(setex_req.life, now1).0 == setex_req.life * 1000);
    if now2 - now1 > setex_req.life * 1000 {
        assert(expired_keys(s1.times, now2).contains(setex_req.key));
    } else {
        assert(!expired_keys(s1.times, now2).contains(setex_req.key));
    }
}

/// Expiry leaves no stamp that has run out, drops no key without a stamp,
/// and a second run at the same time changes nothing.
pub proof fn law_expire(s: ServerView, now: u128, k: Seq<char>)
    requires
        stamps_not_after(s.times, now),
    ensures
        expire(s, now).times.contains_key(k) ==> !expired(expire(s, now).times[k], now),
        !s.times.contains_key(k) && s.contents.contains_key(k) ==> expire(s, now).contents.contains_key(k)
            && expire(s, now).contents[k] == s.contents[k],
        expire(expire(s, now), now) == expire(s, now),
{
    let e = expire(s, now);
    assert(expired_keys(e.times, now) =~= Set::<Seq<char>>::empty());
    assert(e.contents.remove_keys(Set::<Seq<char>>::empty()) =~= e.contents);
    assert(e.times.remove_keys(Set::<Seq<char>>::empty()) =~= e.times);
    assert(expire(e, now) =~= e);
}

/// Expiry keeps the clock's promise: after it, no stamp lies after `now`
/// if none did before.
pub proof fn law_expire_keeps_clock(s: ServerView, now: u128)
    requires
        stamps_not_after(s.times, now),
    ensures
        stamps_not_after(expire(s, now).times, now),
{
}

/// Only `set`, `setslave`, `setex` and `del` change what a server holds;
/// every other request leaves it as it is.
pub proof fn law_reads_change_nothing(s: ServerView, r: RequestView, now: u128)
    requires
        accepts(s, r),
        r.op != "set"@,
        r.op != "setslave"@,
        r.op != "setex"@,
        r.op != "del"@,
    ensures
        respond(s, r, now).0 == s,
{
}

/// A proxy sends a `get` and a `set` of the same key to the same server,
/// one of the servers behind it.
pub proof fn law_proxy_routes_by_key(s: ServerView, get_req: RequestView, set_req: RequestView, now: u128)
    requires
        answerable(s, get_req, now),
        answerable(s, set_req, now),
        s.proxy.len() >= 2,
        s.proxy[0] == "y"@,
        get_req.op == "get"@,
        set_req.op == "set"@,
        get_req.key == set_req.key,
        vstd::utf8::encode_utf8(get_req.key).len() > 0,
    ensures
        serve(s, get_req, now).1.reply matches ReplyView::Forward(g) && serve(s, set_req, now).1.reply
            matches ReplyView::Forward(t) && g.port == t.port && exists|i: int|
            1 <= i < s.proxy.len() && g.port == s.proxy[i],
{
    lemma_names_differ();
    let i = 1 + (vstd::utf8::encode_utf8(get_req.key)[0] as int) % (s.proxy.len() - 1);
    assert(route(get_req.key, s.proxy) == s.proxy[i]);
}

/// A slave refuses `set`: it answers with its master's address and
/// changes nothing but the expiry.
pub proof fn law_slave_refuses_set(s: ServerView, r: RequestView, now: u128)
    requires
        answerable(s, r, now),
        s.proxy.len() >= 1,
        s.proxy[0] != "y"@,
        s.master.len() >= 2,
        s.master[0] == "n"@,
        r.op == "set"@,
    ensures
        serve(s, r, now) == (expire(s, now), answer("setslave"@, r.key, s.master[1], false)),
{
    lemma_names_differ();
}

/// Slaves stay in step with their master: when a master that holds the
/// same data as a slave stores a `set`, it passes the slave a request for
/// each of its slaves, and the slave that takes its request holds the same
/// data as the master again.
pub proof fn law_replication_keeps_slaves_in_step(
    m: ServerView,
    slave: ServerView,
    r: RequestView,
    now1: u128,
    now2: u128,
    i: int,
)
    requires
        accepts(m, r),
        keeps_data(m),
        r.op == "set"@,
        !m.contents.contains_key(r.key),
        slave.contents == m.contents,
        0 <= i < m.master.len() - 1,
    ensures
        respond(m, r, now1).1.replicate.len() == m.master.len() - 1,
        respond(m, r, now1).1.replicate[i].port == m.master[i + 1],
        respond(slave, respond(m, r, now1).1.replicate[i].request, now2).0.contents == respond(
            m,
            r,
            now1,
        ).0.contents,
{
    lemma_names_differ();
}


/// A slave gives back what its master passed on: after a `setslave`, a
/// `get` of the same key on a server that is no proxy can be answered and
/// answers the value, as long as no stamp that the key had before runs out
/// by then; a `setslave` adds no stamp of its own.
pub proof fn law_get_returns_setslave(
    s: ServerView,
    put: RequestView,
    get_req: RequestView,
    now1: u128,
    now2: u128,
)
    requires
        answerable(s, put, now1),
        now1 <= now2,
        get_req.life >= 0,
        s.proxy.len() >= 1,
        s.proxy[0] != "y"@,
        put.op == "setslave"@,
        get_req.op == "get"@,
        get_req.key == put.key,
        s.times.contains_key(put.key) ==> !expired(s.times[put.key], now2),
    ensures
        serve(s, put, now1).0.times.dom().subset_of(s.times.dom()),
        answerable(serve(s, put, now1).0, get_req, now2),
        serve(serve(s, put, now1).0, get_req, now2).1 == answer("get"@, put.key, put.value, true),
{
    lemma_names_differ();
    lemma_stamp_kept(s, put.key, now1, now2);
    let s1 = serve(s, put, now1).0;
    assert(stamps_not_after(s1.times, now2));
    assert(!expired_keys(s1.times, now2).contains(put.key));
}

/// A `setslave` stores its value under its key, overwriting any value held,
/// touches no stamp, and answers success with blank texts.
pub proof fn law_setslave_stores_without_stamp(s: ServerView, r: RequestView, now: u128)
    requires
        r.op == "setslave"@,
        r.life >= 0,
    ensures
        respond(s, r, now).0.times == s.times,
        respond(s, r, now).0.contents == s.contents.insert(r.key, r.value),
        respond(s, r, now).1.reply == ReplyView::Answer(response(" "@, " "@, " "@, true)),
        respond(s, r, now).1.replicate.len() == 0,
{
    lemma_names_differ();
}

/// A `del` succeeds exactly when the key is held, whatever stamp it has: it
/// drops the key's value, leaves the stamps as they are, and answers with
/// the key and whether it was held.
pub proof fn law_del_reports_held(s: ServerView, r: RequestView, now: u128)
    requires
        r.op == "del"@,
        r.life >= 0,
    ensures
        respond(s, r, now).0.contents == s.contents.remove(r.key),
        respond(s, r, now).0.times == s.times,
        respond(s, r, now).1.reply == ReplyView::Answer(
            response("del"@, r.key, " "@, s.contents.contains_key(r.key)),
        ),
        !respond(s, r, now).0.contents.contains_key(r.key),
{
    lemma_names_differ();
    if !s.contents.contains_key(r.key) {
        assert(s.contents.remove(r.key) =~= s.contents);
    }
}

/// A `ping` echoes its key unchanged, whatever the key (an empty one too),
/// succeeds, and changes nothing.
pub proof fn law_ping_echoes_key(s: ServerView, r: RequestView, now: u128)
    requires
        r.op == "ping"@,
        r.life >= 0,
    ensures
        respond(s, r, now).0 == s,
        respond(s, r, now).1.reply == ReplyView::Answer(response("ping"@, r.key, " "@, true)),
        respond(s, r, now).1.reply matches ReplyView::Answer(a) && a.key == r.key,
{
    lemma_names_differ();
}

/// From the prompt to the screen: the command `set <key> <value>` becomes
/// a `set` request, and a server that keeps its own data and holds no such
/// key yet stores it and the client shows that it was inserted.
pub proof fn law_set_command_reports_insert(
    s: ServerView,
    key: Seq<char>,
    value: Seq<char>,
    now: u128,
)
    requires
        stamps_not_after(s.times, now),
        keeps_data(s),
        !expire(s, now).contents.contains_key(key),
    ensures
        command_of(seq!["set"@, key, value]) == CommandView::Send(request("set"@, key, value, 0, " "@)),
        serve(s, request("set"@, key, value, 0, " "@), now).1.reply matches ReplyView::Answer(r)
            && shown_of(r) == ShownView::Line("Successfully inserted"@),
        serve(s, request("set"@, key, value, 0, " "@), now).0.contents[key] == value,
{
    lemma_names_differ();
    reveal_strlit("shutdown");
    reveal_strlit("set");
    reveal_strlit("get");
}

/// On a server that is no proxy, a `get` answers the value held under its
/// key and succeeds, or answers a blank and fails when the key is not held;
/// it changes nothing.
pub proof fn law_get_reads_held(s: ServerView, r: RequestView, now: u128)
    requires
        r.op == "get"@,
        r.life >= 0,
        s.proxy.len() >= 1,
        s.proxy[0] != "y"@,
    ensures
        respond(s, r, now).0 == s,
        respond(s, r, now).1.replicate.len() == 0,
        s.contents.contains_key(r.key) ==> respond(s, r, now).1.reply == ReplyView::Answer(
            response("get"@, r.key, s.contents[r.key], true),
        ),
        !s.contents.contains_key(r.key) ==> respond(s, r, now).1.reply == ReplyView::Answer(
            response("get"@, r.key, " "@, false),
        ),
{
    lemma_names_differ();
}

/// `getport` and `setport` pass the request on, as a `get` or a `set` of
/// the same key and value, to the server the client named, unless the
/// server is no proxy (its list starts with `"n"`): then they fail and
/// answer the proxy's address.  Neither changes anything.
pub proof fn law_port_requests(s: ServerView, r: RequestView, now: u128)
    requires
        r.op == "getport"@ || r.op == "setport"@,
        accepts(s, r),
    ensures
        respond(s, r, now).0 == s,
        s.proxy[0] == "n"@ ==> (respond(s, r, now).1.reply matches ReplyView::Answer(a) && !a.state
            && a.value == s.proxy[1] && a.op == (if r.op == "getport"@ { "getportfail"@ } else {
            "setportfail"@
        })),
        s.proxy[0] != "n"@ ==> (respond(s, r, now).1.reply matches ReplyView::Forward(f) && f.port
            == r.otherport && f.request.key == r.key && f.request.op == (if r.op == "getport"@ {
            "get"@
        } else {
            "set"@
        }) && (r.op == "setport"@ ==> f.request.value == r.value)),
{
    lemma_names_differ();
}

/// `shutdown` succeeds and changes nothing; a request for no known
/// operation fails with empty texts and changes nothing.
pub proof fn law_shutdown_and_unknown(s: ServerView, r: RequestView, now: u128)
    ensures
        r.op == "shutdown"@ ==> respond(s, r, now) == (s, answer("shutdown"@, " "@, " "@, true)),
        r.op != "get"@ && r.op != "getport"@ && r.op != "set"@ && r.op != "setport"@ && r.op
            != "setslave"@ && r.op != "setex"@ && r.op != "del"@ && r.op != "ping"@ && r.op
            != "shutdown"@ ==> respond(s, r, now) == (s, answer(Seq::empty(), Seq::empty(), Seq::empty(), false)),
{
    lemma_names_differ();
}

/// A `setex` of a key not held stores the value, stamps the key with its
/// lifespan in milliseconds and the time of the request, and succeeds.
pub proof fn law_setex_stamps(s: ServerView, r: RequestView, now: u128)
    requires
        r.op == "setex"@,
        r.life >= 0,
        !s.contents.contains_key(r.key),
    ensures
        respond(s, r, now).0.contents == s.contents.insert(r.key, r.value),
        respond(s, r, now).0.times == s.times.insert(r.key, ((r.life * 1000) as u128, now)),
        (r.life * 1000) as u128 == r.life * 1000,
        respond(s, r, now).1 == answer("setex"@, r.key, " "@, true),
{
    lemma_names_differ();
}

/// Each command carries its words into its request: `get <key>` asks for
/// the key here, `get <port> <key>` at the named server, `set` stores its
/// value under its key (with the life span that `ex` gives, read as Rust
/// reads an `i32`), `set <port> <key> <value>` at the named server, `del`
/// drops its key, and `ping` sends the rest of the line, its words joined
/// by single spaces.
pub proof fn law_commands_carry_their_words(w: Seq<Seq<char>>)
    requires
        w.len() >= 1,
    ensures
        w[0] == "get"@ && w.len() == 2 ==> command_of(w) == CommandView::Send(
            request("get"@, w[1], " "@, 0, " "@),
        ),
        w[0] == "get"@ && w.len() == 3 ==> command_of(w) == CommandView::Send(
            request("getport"@, w[2], " "@, 0, w[1]),
        ),
        w[0] == "set"@ && w.len() == 3 ==> command_of(w) == CommandView::Send(
            request("set"@, w[1], w[2], 0, " "@),
        ),
        w[0] == "set"@ && w.len() == 5 && w[3] == "ex"@ ==> command_of(w) == (match parsed_i32(w[4]) {
            Some(life) => CommandView::Send(request("setex"@, w[1], w[2], life, " "@)),
            None => CommandView::BadLife,
        }),
        w[0] == "set"@ && w.len() == 4 ==> command_of(w) == CommandView::Send(
            request("setport"@, w[2], w[3], 0, w[1]),
        ),
        w[0] == "del"@ && w.len() == 2 ==> command_of(w) == CommandView::Send(
            request("del"@, w[1], " "@, 0, " "@),
        ),
        w[0] == "ping"@ ==> command_of(w) == CommandView::Send(
            request("ping"@, crate::text::joined(w.skip(1), " "@), " "@, 0, " "@),
        ),
{
    lemma_names_differ();
}

/// The character of decimal digit `d`.
pub open spec fn digit_char(d: int) -> char {
    ('0' as int + d) as char
}

/// The decimal digits of `m`, with no leading zero (and `0` for zero).
pub open spec fn decimal_digits(m: nat) -> Seq<char>
    decreases m,
{
    if m < 10 {
        seq![digit_char(m as int)]
    } else {
        decimal_digits(m / 10).push(digit_char((m % 10) as int))
    }
}

/// How Rust writes an `i32` in decimal: a minus sign for a negative number,
/// then the digits of its size.
pub open spec fn i32_text(n: i32) -> Seq<char> {
    if n < 0 {
        seq!['-'] + decimal_digits((-n) as nat)
    } else {
        decimal_digits(n as nat)
    }
}

/// The digits of a number are all digits, start with a digit, and write it.
pub proof fn lemma_decimal_digits(m: nat)
    ensures
        all_digits(decimal_digits(m)),
        decimal(decimal_digits(m)) == m,
        decimal_digits(m).len() > 0,
        '0' <= decimal_digits(m)[0] <= '9',
    decreases m,
{
    if m >= 10 {
        lemma_decimal_digits(m / 10);
        let d = decimal_digits(m / 10);
        let e = d.push(digit_char((m % 10) as int));
        assert(e.drop_last() =~= d);
        assert(e[0] == d[0]);
        assert forall|i: int| 0 <= i < e.len() implies '0' <= #[trigger] e[i] <= '9' by {
            if i < d.len() {
                assert(e[i] == d[i]);
            }
        }
        assert(digit_value(digit_char((m % 10) as int)) == m % 10);
        assert((m / 10) * 10 + m % 10 == m) by (nonlinear_arith);
        assert(e.last() == digit_char((m % 10) as int));
        assert(decimal(e) == decimal(e.drop_last()) * 10 + digit_value(e.last()));
        assert(decimal(e) == (m / 10) * 10 + m % 10);
    } else {
        let e = decimal_digits(m);
        assert(e.drop_last() =~= Seq::<char>::empty());
        assert(digit_value(digit_char(m as int)) == m);
        assert(decimal(e) == decimal(e.drop_last()) * 10 + digit_value(e.last()));
    }
}

/// Reading a life span reads every `i32` that Rust writes: the decimal text
/// of any `n`, with a minus sign when negative, is read back as `n`.
pub proof fn law_parse_reads_every_i32(n: i32)
    ensures
        parsed_i32(i32_text(n)) == Some(n),
{
    if n < 0 {
        let m = (-n) as nat;
        lemma_decimal_digits(m);
        let t = i32_text(n);
        assert(t[0] == '-');
        assert(t.skip(1) =~= decimal_digits(m));
    } else {
        lemma_decimal_digits(n as nat);
        let t = i32_text(n);
        assert(t[0] != '-' && t[0] != '+');
    }
}

/// A server of a list is a proxy: its proxy list starts with `"y"`.
pub open spec fn lists_proxy(t: ServerInfoView) -> bool {
    t.1.len() >= 1 && t.1[0] == "y"@
}

/// A server of a list is a master that is no proxy: its proxy list starts
/// with `"n"` and its master list with `"y"`.
pub open spec fn lists_master(t: ServerInfoView) -> bool {
    t.1.len() >= 1 && t.1[0] == "n"@ && t.2.len() >= 1 && t.2[0] == "y"@
}

/// A server of a list is a slave: its master list starts with `"n"`.
pub open spec fn lists_slave(t: ServerInfoView) -> bool {
    t.2.len() >= 2 && t.2[0] == "n"@
}

/// The example layout holds together: its first server is the one proxy,
/// and every other server names it as its proxy; the proxy spreads keys
/// over every master, and over masters only; and every slave names a
/// master that lists it among its slaves.
pub proof fn law_example_layout_holds_together()
    ensures
        ({
            let v = example_servers();
            &&& v.len() > 0
            &&& lists_proxy(v[0])
            &&& forall|i: int| 1 <= i < v.len() ==> !lists_proxy(#[trigger] v[i]) && v[i].1.len() >= 2
                && v[i].1[1] == v[0].0
            &&& forall|i: int| 0 <= i < v.len() && lists_master(#[trigger] v[i]) ==> exists|j: int|
                1 <= j < v[0].1.len() && v[0].1[j] == v[i].0
            &&& forall|j: int| 1 <= j < v[0].1.len() ==> exists|i: int|
                0 <= i < v.len() && lists_master(v[i]) && v[i].0 == #[trigger] v[0].1[j]
            &&& forall|i: int| 0 <= i < v.len() && lists_slave(#[trigger] v[i]) ==> exists|j: int|
                0 <= j < v.len() && v[j].0 == v[i].2[1] && lists_master(v[j]) && exists|k: int|
                1 <= k < v[j].2.len() && v[j].2[k] == v[i].0
        }),
{
    reveal_strlit("y");
    reveal_strlit("n");
    reveal_strlit("127.0.0.1:8080");
    reveal_strlit("127.0.0.1:8081");
    reveal_strlit("127.0.0.1:8082");
    reveal_strlit("127.0.0.1:8083");
    reveal_strlit("127.0.0.1:8084");
    let v = example_servers();
    assert("y"@ != "n"@) by {
        assert("y"@[0] != "n"@[0]);
    }
    let a0 = "127.0.0.1:8080"@;
    let a1 = "127.0.0.1:8081"@;
    let a2 = "127.0.0.1:8082"@;
    let a3 = "127.0.0.1:8083"@;
    let a4 = "127.0.0.1:8084"@;
    assert(a0 != a1 && a0 != a2 && a0 != a3 && a0 != a4 && a1 != a2 && a1 != a3 && a1 != a4 && a2 != a3
        && a2 != a4 && a3 != a4) by {
        assert(a0[13] != a1[13] && a0[13] != a2[13] && a0[13] != a3[13] && a0[13] != a4[13]);
        assert(a1[13] != a2[13] && a1[13] != a3[13] && a1[13] != a4[13]);
        assert(a2[13] != a3[13] && a2[13] != a4[13] && a3[13] != a4[13]);
    }
    assert(v[0].1[1] == a3 && v[0].1[2] == a4);
    assert(lists_master(v[3]) && lists_master(v[4]));
    assert(!lists_master(v[0]) && !lists_master(v[1]) && !lists_master(v[2]));
    assert(lists_slave(v[1]) && lists_slave(v[2]));
    assert(!lists_slave(v[0]) && !lists_slave(v[3]) && !lists_slave(v[4]));
    assert forall|i: int| 0 <= i < v.len() && lists_master(#[trigger] v[i]) implies exists|j: int|
        1 <= j < v[0].1.len() && v[0].1[j] == v[i].0 by {
        if i == 3 {
            assert(v[0].1[1] == v[i].0);
        } else {
            assert(i == 4);
            assert(v[0].1[2] == v[i].0);
        }
    }
    assert forall|j: int| 1 <= j < v[0].1.len() implies exists|i: int|
        0 <= i < v.len() && lists_master(v[i]) && v[i].0 == #[trigger] v[0].1[j] by {
        if j == 1 {
            assert(lists_master(v[3]) && v[3].0 == v[0].1[j]);
        } else {
            assert(lists_master(v[4]) && v[4].0 == v[0].1[j]);
        }
    }
    assert forall|i: int| 0 <= i < v.len() && lists_slave(#[trigger] v[i]) implies exists|j: int|
        0 <= j < v.len() && v[j].0 == v[i].2[1] && lists_master(v[j]) && exists|k: int|
        1 <= k < v[j].2.len() && v[j].2[k] == v[i].0 by {
        assert(v[i].2[1] == a4);
        assert(v[4].0 == v[i].2[1] && lists_master(v[4]));
        if i == 1 {
            assert(v[4].2[1] == v[i].0);
        } else {
            assert(i == 2);
            assert(v[4].2[2] == v[i].0);
        }
    }
}

} // verus!
