//! The list of servers to run, kept in `Server.json`: the first line of the
//! file is the list as JSON.  Without the file, a single server runs that
//! is its own proxy and master.

use vstd::prelude::*;
use crate::json::{
    ServerInfo, ServerInfoView, server_views, server_list_of_json, json_text_of_server_list,
    parse_server_list, server_list_to_json, lemma_server_list_text_one_line, lemma_lines_of_joined,
};
use crate::message::text;
use crate::text::{text_lines, split_lines, joined};

verus! {

/// The list of servers when there is no `Server.json`.
pub open spec fn default_servers() -> Seq<ServerInfoView> {
    seq![("127.0.0.1:8080"@, seq!["y"@], seq!["y"@])]
}

/// The server list that the contents of `Server.json` give (`None` for no
/// file): the list of the file's first line, or the default list without
/// a file; `None` for a file with no line or whose first line holds no
/// server list.
pub open spec fn servers_of(contents: Option<Seq<char>>) -> Option<Seq<ServerInfoView>> {
    match contents {
        None => Some(default_servers()),
        Some(t) => if text_lines(t).len() == 0 {
            None
        } else {
            server_list_of_json(text_lines(t)[0])
        },
    }
}

/// The characters of a server list, if there is one.
pub open spec fn list_view(r: Option<Vec<ServerInfo>>) -> Option<Seq<ServerInfoView>> {
    match r {
        Some(v) => Some(server_views(v@)),
        None => None,
    }
}

/// The characters of a text, if there is one.
pub open spec fn text_view(t: Option<&str>) -> Option<Seq<char>> {
    match t {
        Some(s) => Some(s@),
        None => None,
    }
}

/// A list of strings, one for each of `items`, in order.
fn strings_of(items: Vec<&str>) -> (v: Vec<String>)
    ensures
        v@.len() == items@.len(),
        forall|i: int| 0 <= i < items@.len() ==> #[trigger] v@[i]@ == items@[i]@,
{
    let mut v: Vec<String> = Vec::new();
    let mut i: usize = 0;
    while i < items.len()
        invariant
            i <= items@.len(),
            v@.len() == i,
            forall|j: int| 0 <= j < i ==> #[trigger] v@[j]@ == items@[j]@,
        decreases items@.len() - i,
    {
        v.push(text(items[i]));
        i = i + 1;
    }
    v
}

/// The list of servers when there is no `Server.json`.
pub fn default_server_list() -> (r: Vec<ServerInfo>)
    ensures
        server_views(r@) == default_servers(),
{
    let r = vec![(text("127.0.0.1:8080"), strings_of(vec!["y"]), strings_of(vec!["y"]))];
    assert(server_views(r@) =~= default_servers()) by {
        assert(crate::text::texts(r@[0].1@) =~= seq!["y"@]);
        assert(crate::text::texts(r@[0].2@) =~= seq!["y"@]);
    }
    r
}

/// The server list from the contents of `Server.json`, or the default list
/// when there is no file (`None`).
pub fn servers_from(contents: Option<&str>) -> (r: Option<Vec<ServerInfo>>)
    ensures
        list_view(r) == servers_of(text_view(contents)),
{
    match contents {
        None => Some(default_server_list()),
        Some(t) => {
            let lines = split_lines(t);
            if lines.len() == 0 {
                None
            } else {
                parse_server_list(lines[0].as_str())
            }
        },
    }
}

/// The example layout: a proxy in front of two masters, the second of
/// which has two slaves.
pub open spec fn example_servers() -> Seq<ServerInfoView> {
    seq![
        ("127.0.0.1:8080"@, seq!["y"@, "127.0.0.1:8083"@, "127.0.0.1:8084"@], seq!["y"@]),
        ("127.0.0.1:8081"@, seq!["n"@, "127.0.0.1:8080"@], seq!["n"@, "127.0.0.1:8084"@]),
        ("127.0.0.1:8082"@, seq!["n"@, "127.0.0.1:8080"@], seq!["n"@, "127.0.0.1:8084"@]),
        ("127.0.0.1:8083"@, seq!["n"@, "127.0.0.1:8080"@], seq!["y"@]),
        ("127.0.0.1:8084"@, seq!["n"@, "127.0.0.1:8080"@], seq!["y"@, "127.0.0.1:8081"@, "127.0.0.1:8082"@]),
    ]
}

/// The example layout.
pub fn example_server_list() -> (r: Vec<ServerInfo>)
    ensures
        server_views(r@) == example_servers(),
{
    let r = vec![
        (
            text("127.0.0.1:8080"),
            strings_of(vec!["y", "127.0.0.1:8083", "127.0.0.1:8084"]),
            strings_of(vec!["y"]),
        ),
        (text("127.0.0.1:8081"), strings_of(vec!["n", "127.0.0.1:8080"]), strings_of(vec!["n", "127.0.0.1:8084"])),
        (text("127.0.0.1:8082"), strings_of(vec!["n", "127.0.0.1:8080"]), strings_of(vec!["n", "127.0.0.1:8084"])),
        (text("127.0.0.1:8083"), strings_of(vec!["n", "127.0.0.1:8080"]), strings_of(vec!["y"])),
        (
            text("127.0.0.1:8084"),
            strings_of(vec!["n", "127.0.0.1:8080"]),
            strings_of(vec!["y", "127.0.0.1:8081", "127.0.0.1:8082"]),
        ),
    ];
    assert(server_views(r@) =~= example_servers()) by {
        let e = example_servers();
        assert forall|i: int| 0 <= i < 5 implies server_views(r@)[i] == #[trigger] e[i] by {
            assert(crate::text::texts(r@[i].1@) =~= e[i].1);
            assert(crate::text::texts(r@[i].2@) =~= e[i].2);
        }
    }
    r
}

/// The text of `Server.json` for a server list: the list as JSON, on one
/// line, which `servers_from` reads back as the same list.
pub fn config_text(list: &Vec<ServerInfo>) -> (r: String)
    ensures
        r@ == json_text_of_server_list(server_views(list@)),
        servers_of(Some(r@)) == Some(server_views(list@)),
{
    let t = server_list_to_json(list).unwrap();
    proof {
        let v = server_views(list@);
        lemma_server_list_text_one_line(v);
        lemma_lines_of_joined(seq![t@]);
        assert(joined(seq![t@], seq!['\n']) == t@);
    }
    t
}

/// The text of `Server.json` for the example layout.
pub fn example_config() -> (r: String)
    ensures
        r@ == json_text_of_server_list(example_servers()),
        servers_of(Some(r@)) == Some(example_servers()),
{
    let list = example_server_list();
    config_text(&list)
}

} // verus!
