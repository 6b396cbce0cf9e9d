use volo_example::message::{GetItemRequest, GetItemResponse};
use volo_example::server::{Outcome, Reply, S};
use volo_example::store::{Tm, DB};

fn strings(v: &[&str]) -> Vec<String> {
    v.iter().map(|s| s.to_string()).collect()
}

fn req(op: &str, key: &str, value: &str, life: i32, otherport: &str) -> GetItemRequest {
    GetItemRequest::new(op.to_string(), key.to_string(), value.to_string(), life, otherport.to_string())
}

fn master() -> S {
    S::new("127.0.0.1:8084".to_string(), strings(&["n", "127.0.0.1:8080"]), strings(&["y", "s1", "s2"]))
}

fn slave() -> S {
    S::new("127.0.0.1:8081".to_string(), strings(&["n", "127.0.0.1:8080"]), strings(&["n", "127.0.0.1:8084"]))
}

fn proxy() -> S {
    S::new("127.0.0.1:8080".to_string(), strings(&["y", "a", "b", "c"]), strings(&["y"]))
}

fn answer(o: &Outcome) -> (String, String, String, bool) {
    match &o.reply {
        Reply::Answer(r) => (r.op.clone(), r.key.clone(), r.value.clone(), r.state),
        Reply::Forward(_) => panic!("expected an answer"),
    }
}

fn forwarded(o: &Outcome) -> (String, String, String, String, i32, String) {
    match &o.reply {
        Reply::Forward(f) => (
            f.port.clone(),
            f.request.op.clone(),
            f.request.key.clone(),
            f.request.value.clone(),
            f.request.life,
            f.request.otherport.clone(),
        ),
        Reply::Answer(_) => panic!("expected a forward"),
    }
}

fn a(op: &str, key: &str, value: &str, state: bool) -> (String, String, String, bool) {
    (op.to_string(), key.to_string(), value.to_string(), state)
}

fn serve(s: &mut S, r: GetItemRequest, now: u128) -> Outcome {
    assert!(s.admits(&r, now));
    s.get_item(&r, now)
}

#[test]
fn get_returns_what_set_stored() {
    let mut s = master();
    let o = serve(&mut s, req("set", "k", "v", 0, " "), 10);
    assert_eq!(answer(&o), a("set", "k", "v", true));
    let o = serve(&mut s, req("get", "k", " ", 0, " "), 20);
    assert_eq!(answer(&o), a("get", "k", "v", true));
    assert!(o.replicate.is_empty());
}

#[test]
fn set_passes_the_value_to_each_slave() {
    let mut s = master();
    let o = serve(&mut s, req("set", "k", "v", 0, " "), 10);
    assert_eq!(o.replicate.len(), 2);
    let ports: Vec<String> = o.replicate.iter().map(|r| r.port.clone()).collect();
    assert_eq!(ports, strings(&["s1", "s2"]));
    for r in &o.replicate {
        assert_eq!(r.request.op, "setslave");
        assert_eq!(r.request.key, "k");
        assert_eq!(r.request.value, "v");
        assert_eq!(r.request.life, 0);
        assert_eq!(r.request.otherport, " ");
    }
}

#[test]
fn slave_taking_setslave_holds_the_masters_data() {
    let mut m = master();
    let mut sl = slave();
    let o = serve(&mut m, req("set", "k", "v", 0, " "), 10);
    let relay = &o.replicate[0];
    let o2 = serve(&mut sl, relay.request.clone(), 11);
    assert_eq!(answer(&o2), a(" ", " ", " ", true));
    assert_eq!(sl.contents().get(&"k".to_string()), Some("v".to_string()));
    assert_eq!(m.contents().get(&"k".to_string()), Some("v".to_string()));
}

#[test]
fn set_does_not_overwrite() {
    let mut s = master();
    serve(&mut s, req("set", "k", "v", 0, " "), 10);
    let o = serve(&mut s, req("set", "k", "w", 0, " "), 11);
    assert_eq!(answer(&o), a("set", "k", "v", false));
    assert!(o.replicate.is_empty());
    let o = serve(&mut s, req("get", "k", " ", 0, " "), 12);
    assert_eq!(answer(&o), a("get", "k", "v", true));
}

#[test]
fn get_of_missing_key_fails() {
    let mut s = master();
    let o = serve(&mut s, req("get", "nope", " ", 0, " "), 1);
    assert_eq!(answer(&o), a("get", "nope", " ", false));
}

#[test]
fn slave_refuses_set() {
    let mut s = slave();
    let o = serve(&mut s, req("set", "k", "v", 0, " "), 10);
    assert_eq!(answer(&o), a("setslave", "k", "127.0.0.1:8084", false));
    assert_eq!(s.contents().len(), 0);
}

#[test]
fn del_then_get_finds_nothing() {
    let mut s = master();
    serve(&mut s, req("set", "k", "v", 0, " "), 10);
    let o = serve(&mut s, req("del", "k", " ", 0, " "), 11);
    assert_eq!(answer(&o), a("del", "k", " ", true));
    let o = serve(&mut s, req("get", "k", " ", 0, " "), 12);
    assert_eq!(answer(&o), a("get", "k", " ", false));
    let o = serve(&mut s, req("del", "k", " ", 0, " "), 13);
    assert_eq!(answer(&o), a("del", "k", " ", false));
}

#[test]
fn setex_key_lives_for_its_lifespan() {
    let mut s = master();
    let o = serve(&mut s, req("setex", "k", "v", 2, " "), 1000);
    assert_eq!(answer(&o), a("setex", "k", " ", true));
    assert_eq!(s.times().get(&"k".to_string()), Some((2000, 1000)));
    let o = serve(&mut s, req("get", "k", " ", 0, " "), 3000);
    assert_eq!(answer(&o), a("get", "k", "v", true));
    let o = serve(&mut s, req("get", "k", " ", 0, " "), 3001);
    assert_eq!(answer(&o), a("get", "k", " ", false));
    assert_eq!(s.times().get(&"k".to_string()), None);
}

#[test]
fn setex_does_not_overwrite() {
    let mut s = master();
    serve(&mut s, req("set", "k", "v", 0, " "), 10);
    let o = serve(&mut s, req("setex", "k", "w", 5, " "), 11);
    assert_eq!(answer(&o), a("setex", "k", "v", false));
    assert_eq!(s.times().get(&"k".to_string()), None);
}

#[test]
fn old_stamp_drops_a_key_set_again_after_del() {
    let mut s = master();
    serve(&mut s, req("setex", "k", "v", 1, " "), 0);
    serve(&mut s, req("del", "k", " ", 0, " "), 10);
    let o = serve(&mut s, req("set", "k", "w", 0, " "), 20);
    assert_eq!(answer(&o), a("set", "k", "w", true));
    let o = serve(&mut s, req("get", "k", " ", 0, " "), 2000);
    assert_eq!(answer(&o), a("get", "k", " ", false));
}

#[test]
fn proxy_routes_get_and_set_of_a_key_to_one_server() {
    let mut s = proxy();
    // 'k' is byte 107; 107 % 3 == 2, the third server behind the proxy.
    let o = serve(&mut s, req("get", "k", " ", 0, " "), 1);
    assert_eq!(forwarded(&o), ("c".to_string(), "get".to_string(), "k".to_string(), " ".to_string(), 0, " ".to_string()));
    let o = serve(&mut s, req("set", "k", "v", 0, " "), 2);
    assert_eq!(forwarded(&o), ("c".to_string(), "set".to_string(), "k".to_string(), "v".to_string(), 0, " ".to_string()));
    // 'a' is byte 97; 97 % 3 == 1.
    let o = serve(&mut s, req("get", "a", " ", 0, " "), 3);
    assert_eq!(forwarded(&o).0, "b");
    assert_eq!(s.contents().len(), 0);
}

#[test]
fn getport_and_setport_on_a_server_that_is_no_proxy() {
    let mut s = master();
    let o = serve(&mut s, req("getport", "k", " ", 0, "x:1"), 1);
    assert_eq!(answer(&o), a("getportfail", " ", "127.0.0.1:8080", false));
    let o = serve(&mut s, req("setport", "k", "v", 0, "x:1"), 2);
    assert_eq!(answer(&o), a("setportfail", "k", "127.0.0.1:8080", false));
}

#[test]
fn getport_and_setport_on_a_proxy_forward_to_the_named_server() {
    let mut s = proxy();
    let o = serve(&mut s, req("getport", "k", " ", 0, "x:1"), 1);
    assert_eq!(forwarded(&o), ("x:1".to_string(), "get".to_string(), "k".to_string(), " ".to_string(), 0, " ".to_string()));
    let o = serve(&mut s, req("setport", "k", "v", 0, "x:1"), 2);
    assert_eq!(forwarded(&o), ("x:1".to_string(), "set".to_string(), "k".to_string(), "v".to_string(), 0, " ".to_string()));
}

#[test]
fn setslave_overwrites() {
    let mut s = slave();
    serve(&mut s, req("setslave", "k", "v", 0, " "), 1);
    let o = serve(&mut s, req("setslave", "k", "w", 0, " "), 2);
    assert_eq!(answer(&o), a(" ", " ", " ", true));
    assert_eq!(s.contents().get(&"k".to_string()), Some("w".to_string()));
}

#[test]
fn ping_shutdown_and_unknown() {
    let mut s = master();
    let o = serve(&mut s, req("ping", "hello there", " ", 0, " "), 1);
    assert_eq!(answer(&o), a("ping", "hello there", " ", true));
    let o = serve(&mut s, req("shutdown", " ", " ", 0, " "), 2);
    assert_eq!(answer(&o), a("shutdown", " ", " ", true));
    let o = serve(&mut s, req("frobnicate", "k", "v", 0, " "), 3);
    assert_eq!(answer(&o), a("", "", "", false));
}

#[test]
fn admits_refuses_what_would_fail() {
    let s = master();
    assert!(!s.admits(&req("get", "k", " ", -1, " "), 1));
    let empty = S::new("p".to_string(), Vec::new(), Vec::new());
    assert!(!empty.admits(&req("get", "k", " ", 0, " "), 1));
    assert!(!empty.admits(&req("set", "k", " ", 0, " "), 1));
    assert!(empty.admits(&req("ping", "k", " ", 0, " "), 1));
    let lonely_proxy = S::new("p".to_string(), strings(&["y"]), strings(&["y"]));
    assert!(!lonely_proxy.admits(&req("get", "k", " ", 0, " "), 1));
    let p = proxy();
    assert!(!p.admits(&req("get", "", " ", 0, " "), 1));
    let no_master = S::new("p".to_string(), strings(&["n", "x"]), Vec::new());
    assert!(!no_master.admits(&req("set", "k", "v", 0, " "), 1));
    assert!(no_master.admits(&req("get", "k", " ", 0, " "), 1));
    let bad_slave = S::new("p".to_string(), strings(&["n", "x"]), strings(&["n"]));
    assert!(!bad_slave.admits(&req("set", "k", "v", 0, " "), 1));
    let bad_plain = S::new("p".to_string(), strings(&["n"]), strings(&["y"]));
    assert!(!bad_plain.admits(&req("getport", "k", " ", 0, "x"), 1));
    assert!(bad_plain.admits(&req("get", "k", " ", 0, " "), 1));
}

#[test]
fn admits_refuses_a_clock_behind_a_stamp() {
    let mut s = master();
    serve(&mut s, req("setex", "k", "v", 1, " "), 500);
    assert!(!s.clock_ok(499));
    assert!(!s.admits(&req("ping", " ", " ", 0, " "), 499));
    assert!(s.clock_ok(500));
}

#[test]
fn check_drops_only_run_out_keys() {
    let mut s = master();
    serve(&mut s, req("setex", "a", "1", 1, " "), 0);
    serve(&mut s, req("setex", "b", "2", 5, " "), 0);
    serve(&mut s, req("set", "c", "3", 0, " "), 0);
    s.check(1001);
    assert_eq!(s.contents().get(&"a".to_string()), None);
    assert_eq!(s.contents().get(&"b".to_string()), Some("2".to_string()));
    assert_eq!(s.contents().get(&"c".to_string()), Some("3".to_string()));
    assert_eq!(s.times().get(&"a".to_string()), None);
    assert_eq!(s.times().get(&"b".to_string()), Some((5000, 0)));
    s.check(1001);
    assert_eq!(s.contents().len(), 2);
}

#[test]
fn saved_data_restores_the_same_server() {
    let mut s = master();
    serve(&mut s, req("set", "k", "v", 0, " "), 0);
    serve(&mut s, req("setex", "e", "w", 9, " "), 7);
    let db = DB::from_pairs(s.contents().pairs().clone());
    let tm = Tm::from_pairs(s.times().pairs().clone());
    let mut r = S::from_saved(db, tm, s.port().clone(), s.proxy().clone(), s.master().clone());
    assert_eq!(r.port(), "127.0.0.1:8084");
    let o = serve(&mut r, req("get", "k", " ", 0, " "), 8);
    assert_eq!(answer(&o), a("get", "k", "v", true));
    assert_eq!(r.times().get(&"e".to_string()), Some((9000, 7)));
}

#[test]
fn from_pairs_last_pair_wins() {
    let db = DB::from_pairs(vec![
        ("k".to_string(), "1".to_string()),
        ("j".to_string(), "2".to_string()),
        ("k".to_string(), "3".to_string()),
    ]);
    assert_eq!(db.len(), 2);
    assert_eq!(db.get(&"k".to_string()), Some("3".to_string()));
    assert_eq!(db.get(&"j".to_string()), Some("2".to_string()));
}

#[test]
fn db_insert_remove() {
    let mut db = DB::new();
    db.insert("a".to_string(), "1".to_string());
    db.insert("a".to_string(), "2".to_string());
    assert_eq!(db.len(), 1);
    assert_eq!(db.get(&"a".to_string()), Some("2".to_string()));
    assert!(db.remove(&"a".to_string()));
    assert!(!db.remove(&"a".to_string()));
    assert!(!db.contains_key(&"a".to_string()));
    let _ = GetItemResponse::empty();
}

#[test]
fn tm_expire_reports_gone_keys() {
    let mut tm = Tm::new();
    tm.insert("a".to_string(), (10, 0));
    tm.insert("b".to_string(), (100, 0));
    tm.insert("c".to_string(), (5, 0));
    let mut gone = tm.expire(11);
    gone.sort();
    assert_eq!(gone, strings(&["a", "c"]));
    assert!(tm.contains_key(&"b".to_string()));
    assert!(tm.stamps_not_after(0));
}
