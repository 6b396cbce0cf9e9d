use volo_example::client::{notice, parse_command, render_response, Command, Shown, Usage};
use volo_example::message::GetItemResponse;

fn sent(line: &str) -> (String, String, String, i32, String) {
    match parse_command(line) {
        Command::Send(r) => (r.op, r.key, r.value, r.life, r.otherport),
        other => panic!("expected a request, got {:?}", other),
    }
}

fn t(op: &str, key: &str, value: &str, life: i32, otherport: &str) -> (String, String, String, i32, String) {
    (op.to_string(), key.to_string(), value.to_string(), life, otherport.to_string())
}

fn misuse(line: &str) -> Usage {
    match parse_command(line) {
        Command::Misused(u) => u,
        other => panic!("expected a misuse, got {:?}", other),
    }
}

#[test]
fn commands_become_requests() {
    assert_eq!(sent("set k v"), t("set", "k", "v", 0, " "));
    assert_eq!(sent("  set   k\tv  "), t("set", "k", "v", 0, " "));
    assert_eq!(sent("set k v ex 10"), t("setex", "k", "v", 10, " "));
    assert_eq!(sent("set k v ex -3"), t("setex", "k", "v", -3, " "));
    assert_eq!(sent("set 127.0.0.1:8081 k v"), t("setport", "k", "v", 0, "127.0.0.1:8081"));
    assert_eq!(sent("get k"), t("get", "k", " ", 0, " "));
    assert_eq!(sent("get 127.0.0.1:8081 k"), t("getport", "k", " ", 0, "127.0.0.1:8081"));
    assert_eq!(sent("del k"), t("del", "k", " ", 0, " "));
    assert_eq!(sent("shutdown"), t("shutdown", " ", " ", 0, " "));
    assert_eq!(sent("ping"), t("ping", "", " ", 0, " "));
    assert_eq!(sent("ping hello   world"), t("ping", "hello world", " ", 0, " "));
}

#[test]
fn misused_commands() {
    assert_eq!(misuse("get a b c"), Usage::OfGet);
    assert_eq!(misuse("get"), Usage::OfGet);
    assert_eq!(misuse("set k"), Usage::OfSet);
    assert_eq!(misuse("set a b c d e f"), Usage::OfSet);
    assert_eq!(misuse("set k v px 10"), Usage::OfSet);
    assert_eq!(misuse("del"), Usage::OfDel);
    assert_eq!(misuse("del a b"), Usage::OfDel);
    assert_eq!(misuse("shutdown now"), Usage::OfShutdown);
}

#[test]
fn empty_bad_life_and_unknown() {
    assert!(matches!(parse_command(""), Command::Empty));
    assert!(matches!(parse_command("   \t "), Command::Empty));
    assert!(matches!(parse_command("set k v ex ten"), Command::BadLife));
    assert!(matches!(parse_command("set k v ex 99999999999"), Command::BadLife));
    match parse_command("hello k") {
        Command::Unknown(r) => {
            assert_eq!((r.op, r.key, r.value, r.life, r.otherport), t(" ", " ", " ", 0, " "));
        },
        other => panic!("expected unknown, got {:?}", other),
    }
}

#[test]
fn notices() {
    assert_eq!(notice(&parse_command("")), Some("输入为空，请重新输入：".to_string()));
    assert_eq!(notice(&parse_command("del")), Some("用法： del <key>, 请重新输入".to_string()));
    assert_eq!(notice(&parse_command("shutdown 1")), Some("用法： shutdown, 请重新输入".to_string()));
    assert_eq!(
        notice(&parse_command("get")),
        Some("用法： get <key> \n或者 get <port> <key>, 请重新输入".to_string())
    );
    assert_eq!(
        notice(&parse_command("set")),
        Some(
            "用法： set <key> <value> \n或者 set <key> <value> ex <life span> \n或者 set <port> <key> <value>, 请重新输入"
                .to_string()
        )
    );
    assert_eq!(notice(&parse_command("set k v ex q")), Some("您输入的不是正整数".to_string()));
    assert_eq!(notice(&parse_command("nope")), Some("该指令不存在, 请重新输入".to_string()));
    assert_eq!(notice(&parse_command("set k v")), None);
}

fn shown(op: &str, key: &str, value: &str, state: bool) -> Shown {
    render_response(&GetItemResponse::new(op.to_string(), key.to_string(), value.to_string(), state))
}

fn line(op: &str, key: &str, value: &str, state: bool) -> String {
    match shown(op, key, value, state) {
        Shown::Line(s) => s,
        other => panic!("expected a line, got {:?}", other),
    }
}

#[test]
fn responses_are_shown() {
    assert_eq!(line("get", "k", "v", true), "The value of key \"k\" is \"v\"");
    assert_eq!(line("get", "k", " ", false), "The value of key \"k\" does not exist");
    assert_eq!(line("set", "k", "v", false), "The value of key \"k\" is \"v\", which already exists");
    assert_eq!(line("setex", "k", "v", false), "The value of key \"k\" is \"v\", which already exists");
    assert_eq!(line("set", "k", "v", true), "Successfully inserted");
    assert_eq!(line("setex", "k", " ", true), "Successfully inserted");
    assert_eq!(line("setslave", "k", "m:1", false), "You can not set the slave, the master port is \"m:1\"");
    assert_eq!(line("del", "k", " ", true), "Successfully deleted");
    assert_eq!(line("del", "k", " ", false), "The value of key \"k\" does not exist");
    assert_eq!(line("ping", "", " ", true), "pong");
    assert_eq!(line("ping", "hi there", " ", true), "pong \"hi there\"");
    assert_eq!(line("setportfail", "k", "p:1", false), "You are not using the proxy, the proxy port is \"p:1\"");
    assert_eq!(line("getportfail", " ", "p:1", false), "You are not using the proxy, the proxy port is \"p:1\"");
    assert_eq!(line("shutdown", " ", " ", false), "Error on shutdown");
    assert!(matches!(shown("shutdown", " ", " ", true), Shown::Exit));
    assert!(matches!(shown("", "", "", false), Shown::Unexpected));
    assert!(matches!(shown(" ", " ", " ", true), Shown::Unexpected));
}
