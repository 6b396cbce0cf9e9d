use volo_example::middleware::{LogLayer, LogService};
use volo_example::text::{chars_of, char_is_space, contains_text, join_from, parse_i32, split_lines, split_words};

#[test]
fn space_agrees_with_std_on_every_char() {
    for n in 0u32..=0x10FFFF {
        if let Some(c) = char::from_u32(n) {
            assert_eq!(char_is_space(c), c.is_whitespace(), "char {:#x}", n);
        }
    }
}

#[test]
fn split_agrees_with_std() {
    let lines = [
        "", " ", "a", " a", "a ", "a b", "  a \t b\nc  ", "set k v ex 10", "x\u{3000}y\u{a0}z", "héllo wörld",
        "\u{2028}", "a\u{85}b",
    ];
    for l in lines.iter() {
        let ours = split_words(l);
        let std: Vec<String> = l.split_whitespace().map(|s| s.to_string()).collect();
        assert_eq!(ours, std, "line {:?}", l);
    }
}

#[test]
fn join_from_position() {
    let parts: Vec<String> = vec!["ping".to_string(), "a".to_string(), "b".to_string(), "c".to_string()];
    assert_eq!(join_from(&parts, 1, " "), "a b c");
    assert_eq!(join_from(&parts, 3, " "), "c");
    assert_eq!(join_from(&parts, 4, " "), "");
    assert_eq!(join_from(&parts, 0, "--"), "ping--a--b--c");
}

#[test]
fn parse_agrees_with_std() {
    let inputs = [
        "", "0", "-0", "+0", "7", "+7", "-7", "42", "2147483647", "2147483648", "-2147483648", "-2147483649",
        "+", "-", "+-1", "--1", "1a", " 1", "00012", "99999999999999999999", "٣", "1_000",
    ];
    for s in inputs.iter() {
        assert_eq!(parse_i32(s), s.parse::<i32>().ok(), "input {:?}", s);
    }
}

#[test]
fn contains_agrees_with_std() {
    let cases = [
        ("", ""), ("abc", ""), ("", "a"), ("abc", "abc"), ("abc", "abcd"), ("xx114514yy", "114514"),
        ("11451", "114514"), ("1145114514", "114514"), ("héllo", "éll"), ("aaa", "aa"),
    ];
    for (h, n) in cases.iter() {
        assert_eq!(contains_text(h, n), h.contains(n), "{:?} in {:?}", n, h);
    }
}

#[test]
fn screen_turns_away_the_banned_number() {
    assert_eq!(
        LogService::<u8>::screen("GetItemRequest { key: \"114514\" }"),
        Err("There are inappropriate words and they have been filtered".to_string())
    );
    assert_eq!(LogService::<u8>::screen("GetItemRequest { key: \"11451\" }"), Ok(()));
    let s = LogLayer.layer(5u8);
    assert_eq!(*s.inner(), 5);
}

#[test]
fn lines_agree_with_std() {
    let texts = [
        "", "\n", "\n\n", "a", "a\n", "a\nb", "a\r\nb\r\n", "a\r", "a\rb\n", "\r\n", "x\n\ny", "héllo\r\nwörld",
        "{\"a\":\"b\"}\n{}\n\"p\"\n[\"n\"]\n[\"y\"]",
    ];
    for t in texts.iter() {
        let std: Vec<String> = t.lines().map(|s| s.to_string()).collect();
        assert_eq!(split_lines(t), std, "text {:?}", t);
    }
}

#[test]
fn chars_in_order() {
    assert_eq!(chars_of("aé\n"), vec!['a', 'é', '\n']);
    assert!(chars_of("").is_empty());
}
