use volo_example::client::{parse_command, render_response, Command, Shown};
use volo_example::server::{Reply, S};

fn strings(v: &[&str]) -> Vec<String> {
    v.iter().map(|s| s.to_string()).collect()
}

fn through(s: &mut S, line: &str, now: u128) -> String {
    let request = match parse_command(line) {
        Command::Send(r) => r,
        other => panic!("expected a request, got {:?}", other),
    };
    assert!(s.admits(&request, now));
    match s.get_item(&request, now).reply {
        Reply::Answer(r) => match render_response(&r) {
            Shown::Line(l) => l,
            other => panic!("expected a line, got {:?}", other),
        },
        Reply::Forward(_) => panic!("expected an answer"),
    }
}

#[test]
fn set_command_reports_insert_and_get_reads_it() {
    let mut s = S::new("127.0.0.1:8083".to_string(), strings(&["n", "127.0.0.1:8080"]), strings(&["y"]));
    assert_eq!(through(&mut s, "set name volo", 1), "Successfully inserted");
    assert_eq!(through(&mut s, "set name other", 2), "The value of key \"name\" is \"volo\", which already exists");
    assert_eq!(through(&mut s, "del name", 3), "Successfully deleted");
    assert_eq!(through(&mut s, "del name", 4), "The value of key \"name\" does not exist");
    assert_eq!(through(&mut s, "ping  a b ", 5), "pong \"a b\"");
    assert_eq!(through(&mut s, "set t 1 ex 1", 6), "Successfully inserted");
    assert_eq!(through(&mut s, "get 127.0.0.1:9 t", 7), "You are not using the proxy, the proxy port is \"127.0.0.1:8080\"");
}

#[test]
fn reads_leave_the_data_as_it_is() {
    let mut s = S::new("p".to_string(), strings(&["n", "x"]), strings(&["y"]));
    through(&mut s, "set a 1", 1);
    for line in ["ping", "shutdown", "get x:1 a", "set x:1 a 2"].iter() {
        let request = match parse_command(line) {
            Command::Send(r) => r,
            _ => panic!("expected a request"),
        };
        s.get_item(&request, 2);
        assert_eq!(s.contents().len(), 1);
        assert_eq!(s.contents().get(&"a".to_string()), Some("1".to_string()));
    }
}
