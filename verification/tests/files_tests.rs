use volo_example::config::{config_text, default_server_list, example_config, example_server_list, servers_from};
use volo_example::message::GetItemRequest;
use volo_example::server::S;
use volo_example::store::{Tm, DB};
use volo_example::text::split_lines;

fn strings(v: &[&str]) -> Vec<String> {
    v.iter().map(|s| s.to_string()).collect()
}

#[test]
fn no_file_gives_one_server() {
    let list = servers_from(None).unwrap();
    assert_eq!(list, vec![("127.0.0.1:8080".to_string(), strings(&["y"]), strings(&["y"]))]);
    assert_eq!(list, default_server_list());
}

#[test]
fn the_first_line_of_the_file_is_the_list() {
    let text = "[[\"127.0.0.1:9000\",[\"n\",\"127.0.0.1:8080\"],[\"y\"]]]\nignored";
    let list = servers_from(Some(text)).unwrap();
    assert_eq!(list, vec![("127.0.0.1:9000".to_string(), strings(&["n", "127.0.0.1:8080"]), strings(&["y"]))]);
}

#[test]
fn a_bad_or_empty_file_gives_no_list() {
    assert_eq!(servers_from(Some("")), None);
    assert_eq!(servers_from(Some("not json")), None);
    assert_eq!(servers_from(Some("\n[]")), None);
    assert_eq!(servers_from(Some("[]")), Some(Vec::new()));
}

#[test]
fn example_config_reads_back_as_the_example() {
    let text = example_config();
    assert_eq!(servers_from(Some(&text)).unwrap(), example_server_list());
    assert_eq!(example_server_list().len(), 5);
    assert_eq!(example_server_list()[4].2, strings(&["y", "127.0.0.1:8081", "127.0.0.1:8082"]));
}

#[test]
fn saved_text_has_five_lines_and_reads_back() {
    let mut s = S::new("127.0.0.1:8081".to_string(), strings(&["n", "127.0.0.1:8080"]), strings(&["n", "a\"b"]));
    let r = GetItemRequest::new("setslave".to_string(), "k".to_string(), "v".to_string(), 0, " ".to_string());
    s.get_item(&r, 1);
    let text = s.saved_text("{\"k\":\"v\"}", "{}");
    assert_eq!(
        text,
        "{\"k\":\"v\"}\n{}\n\"127.0.0.1:8081\"\n[\"n\",\"127.0.0.1:8080\"]\n[\"n\",\"a\\\"b\"]"
    );
    let lines = split_lines(&text);
    assert_eq!(lines.len(), 5);
    let db = DB::from_pairs(s.contents().pairs().clone());
    let back = S::from_saved_text(db, Tm::new(), &lines).unwrap();
    assert_eq!(back.port(), "127.0.0.1:8081");
    assert_eq!(back.proxy(), &strings(&["n", "127.0.0.1:8080"]));
    assert_eq!(back.master(), &strings(&["n", "a\"b"]));
    assert_eq!(back.contents().get(&"k".to_string()), Some("v".to_string()));
}

#[test]
fn short_or_bad_saved_text_gives_no_server() {
    let lines = strings(&["{}", "{}", "\"p\"", "[\"n\"]"]);
    assert!(S::from_saved_text(DB::new(), Tm::new(), &lines).is_none());
    let lines = strings(&["{}", "{}", "p", "[\"n\"]", "[\"y\"]"]);
    assert!(S::from_saved_text(DB::new(), Tm::new(), &lines).is_none());
    let lines = strings(&["{}", "{}", "\"p\"", "[\"n\"]", "\"y\""]);
    assert!(S::from_saved_text(DB::new(), Tm::new(), &lines).is_none());
    let lines = strings(&["{}", "{}", "\"p\"", "[]", "[\"y\"]", "extra"]);
    let s = S::from_saved_text(DB::new(), Tm::new(), &lines).unwrap();
    assert_eq!(s.port(), "p");
    assert!(s.proxy().is_empty());
}

#[test]
fn any_server_list_reads_back_from_its_config_text() {
    let list = vec![
        ("a\tb".to_string(), strings(&["y", "\u{1}x\"\\"]), Vec::new()),
        ("é\n".to_string(), Vec::new(), strings(&["\r", "\u{1f}"])),
    ];
    let text = config_text(&list);
    assert_eq!(
        text,
        "[[\"a\\tb\",[\"y\",\"\\u0001x\\\"\\\\\"],[]],[\"é\\n\",[],[\"\\r\",\"\\u001f\"]]]"
    );
    assert_eq!(servers_from(Some(&text)), Some(list));
    assert_eq!(config_text(&Vec::new()), "[]");
}

#[test]
fn saved_text_of_odd_roles_reads_back() {
    let s = S::new("p\u{8}\u{c}".to_string(), strings(&["n", "a\nb"]), strings(&["\u{0}"]));
    let text = s.saved_text("{}", "{}");
    assert_eq!(text, "{}\n{}\n\"p\\b\\f\"\n[\"n\",\"a\\nb\"]\n[\"\\u0000\"]");
    let lines = split_lines(&text);
    let back = S::from_saved_text(DB::new(), Tm::new(), &lines).unwrap();
    assert_eq!(back.port(), "p\u{8}\u{c}");
    assert_eq!(back.proxy(), &strings(&["n", "a\nb"]));
    assert_eq!(back.master(), &strings(&["\u{0}"]));
}
