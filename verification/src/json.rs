//! The JSON texts that the server list and the saved data are made of,
//! read and written by `serde_json`.  The text it writes is spelt out here
//! (a string in quotes with its escapes, a list in brackets with commas);
//! what it reads from a text is named and not spelt out.

use vstd::prelude::*;
use crate::text::{texts, joined, pieces, text_lines, without_cr};

verus! {

/// A server of the list: its address, its proxy list and its master list.
pub type ServerInfo = (String, Vec<String>, Vec<String>);

/// A server of the list, as characters.
pub type ServerInfoView = (Seq<char>, Seq<Seq<char>>, Seq<Seq<char>>);

/// The characters of each server of a list.
pub open spec fn server_views(v: Seq<ServerInfo>) -> Seq<ServerInfoView> {
    v.map_values(|t: ServerInfo| (t.0@, texts(t.1@), texts(t.2@)))
}

/// The string that `serde_json` reads from `text`, if it reads one.
pub uninterp spec fn string_of_json(text: Seq<char>) -> Option<Seq<char>>;

/// The list of strings that `serde_json` reads from `text`, if it reads one.
pub uninterp spec fn strings_of_json(text: Seq<char>) -> Option<Seq<Seq<char>>>;

/// The server list that `serde_json` reads from `text`, if it reads one.
pub uninterp spec fn server_list_of_json(text: Seq<char>) -> Option<Seq<ServerInfoView>>;

/// A hexadecimal digit, in lower case.
pub open spec fn hex_digit(n: int) -> char {
    if n < 10 {
        ('0' as int + n) as char
    } else {
        ('a' as int + n - 10) as char
    }
}

/// How `serde_json` writes character `c` inside a JSON string: a quote and a
/// backslash get a backslash before them, the control characters with a
/// short escape get it, the other control characters become `\u00` and two
/// hexadecimal digits, and every other character stands as it is.
pub open spec fn escape_char(c: char) -> Seq<char> {
    if c == '"' {
        seq!['\\', '"']
    } else if c == '\\' {
        seq!['\\', '\\']
    } else if c == '\u{8}' {
        seq!['\\', 'b']
    } else if c == '\t' {
        seq!['\\', 't']
    } else if c == '\n' {
        seq!['\\', 'n']
    } else if c == '\u{c}' {
        seq!['\\', 'f']
    } else if c == '\r' {
        seq!['\\', 'r']
    } else if (c as u32) < 0x20 {
        seq!['\\', 'u', '0', '0', hex_digit((c as u32) as int / 16), hex_digit((c as u32) as int % 16)]
    } else {
        seq![c]
    }
}

/// The characters of `s`, each written as inside a JSON string.
pub open spec fn escaped(s: Seq<char>) -> Seq<char>
    decreases s.len(),
{
    if s.len() == 0 {
        Seq::empty()
    } else {
        escaped(s.drop_last()) + escape_char(s.last())
    }
}

/// The JSON text that `serde_json` writes for string `s`.
pub open spec fn json_text_of_string(s: Seq<char>) -> Seq<char> {
    seq!['"'] + escaped(s) + seq!['"']
}

/// A JSON array of the given JSON texts, as `serde_json` writes it: in
/// brackets, separated by commas, with no spaces.
pub open spec fn json_array(items: Seq<Seq<char>>) -> Seq<char> {
    seq!['['] + joined(items, seq![',']) + seq![']']
}

/// The JSON text that `serde_json` writes for a list of strings.
pub open spec fn json_text_of_strings(v: Seq<Seq<char>>) -> Seq<char> {
    json_array(v.map_values(|s: Seq<char>| json_text_of_string(s)))
}

/// The JSON text that `serde_json` writes for one server of a list: an
/// array of its address and its two lists.
pub open spec fn json_text_of_server(t: ServerInfoView) -> Seq<char> {
    json_array(seq![json_text_of_string(t.0), json_text_of_strings(t.1), json_text_of_strings(t.2)])
}

/// The JSON text that `serde_json` writes for a server list.
pub open spec fn json_text_of_server_list(v: Seq<ServerInfoView>) -> Seq<char> {
    json_array(v.map_values(|t: ServerInfoView| json_text_of_server(t)))
}

/// `s` holds no line feed and no carriage return.
pub open spec fn one_line(s: Seq<char>) -> bool {
    forall|i: int| 0 <= i < s.len() ==> #[trigger] s[i] != '\n' && s[i] != '\r'
}

/// The escapes of a string hold no line feed and no carriage return.
pub proof fn lemma_escaped_one_line(s: Seq<char>)
    ensures
        one_line(escaped(s)),
    decreases s.len(),
{
    if s.len() > 0 {
        lemma_escaped_one_line(s.drop_last());
        let a = escaped(s.drop_last());
        let b = escape_char(s.last());
        assert(one_line(b)) by {
            let c = s.last();
            if (c as u32) < 0x20 && c != '\u{8}' && c != '\t' && c != '\n' && c != '\u{c}' && c != '\r' {
                let n = (c as u32) as int;
                assert(hex_digit(n / 16) == '0' || hex_digit(n / 16) == '1');
                assert(0 <= n % 16 < 16);
            }
        }
        assert forall|i: int| 0 <= i < (a + b).len() implies #[trigger] (a + b)[i] != '\n' && (a + b)[i] != '\r' by {
            if i < a.len() {
                assert((a + b)[i] == a[i]);
            } else {
                assert((a + b)[i] == b[i - a.len()]);
            }
        }
    }
}

/// Texts on one line, joined by a separator on one line, are on one line.
pub proof fn lemma_joined_one_line(items: Seq<Seq<char>>, sep: Seq<char>)
    requires
        one_line(sep),
        forall|i: int| 0 <= i < items.len() ==> one_line(#[trigger] items[i]),
    ensures
        one_line(joined(items, sep)),
    decreases items.len(),
{
    if items.len() > 1 {
        let rest = items.drop_last();
        assert forall|i: int| 0 <= i < rest.len() implies one_line(#[trigger] rest[i]) by {
            assert(rest[i] == items[i]);
        }
        lemma_joined_one_line(rest, sep);
        assert(one_line(items[items.len() - 1]));
        let a = joined(rest, sep);
        let l = items.last();
        assert forall|i: int| 0 <= i < (a + sep + l).len() implies #[trigger] (a + sep + l)[i] != '\n'
            && (a + sep + l)[i] != '\r' by {
            if i < a.len() {
                assert((a + sep + l)[i] == a[i]);
            } else if i < a.len() + sep.len() {
                assert((a + sep + l)[i] == sep[i - a.len()]);
            } else {
                assert((a + sep + l)[i] == l[i - a.len() - sep.len()]);
            }
        }
    } else if items.len() == 1 {
        assert(one_line(items[0]));
    }
}

/// A JSON array of texts on one line is on one line, and is not empty.
pub proof fn lemma_array_one_line(items: Seq<Seq<char>>)
    requires
        forall|i: int| 0 <= i < items.len() ==> one_line(#[trigger] items[i]),
    ensures
        one_line(json_array(items)),
        json_array(items).len() > 0,
{
    lemma_joined_one_line(items, seq![',']);
    let a = seq!['['];
    let b = joined(items, seq![',']);
    let c = seq![']'];
    assert forall|i: int| 0 <= i < (a + b + c).len() implies #[trigger] (a + b + c)[i] != '\n'
        && (a + b + c)[i] != '\r' by {
        if i < 1 {
            assert((a + b + c)[i] == '[');
        } else if i < 1 + b.len() {
            assert((a + b + c)[i] == b[i - 1]);
        } else {
            assert((a + b + c)[i] == ']');
        }
    }
}

/// The JSON text of a string is on one line and is not empty.
pub proof fn lemma_string_text_one_line(s: Seq<char>)
    ensures
        one_line(json_text_of_string(s)),
        json_text_of_string(s).len() > 0,
{
    lemma_escaped_one_line(s);
    let a = seq!['"'];
    let b = escaped(s);
    assert forall|i: int| 0 <= i < (a + b + a).len() implies #[trigger] (a + b + a)[i] != '\n'
        && (a + b + a)[i] != '\r' by {
        if i < 1 {
            assert((a + b + a)[i] == '"');
        } else if i < 1 + b.len() {
            assert((a + b + a)[i] == b[i - 1]);
        } else {
            assert((a + b + a)[i] == '"');
        }
    }
}

/// The JSON text of a list of strings is on one line and is not empty.
pub proof fn lemma_strings_text_one_line(v: Seq<Seq<char>>)
    ensures
        one_line(json_text_of_strings(v)),
        json_text_of_strings(v).len() > 0,
{
    let items = v.map_values(|s: Seq<char>| json_text_of_string(s));
    assert forall|i: int| 0 <= i < items.len() implies one_line(#[trigger] items[i]) by {
        lemma_string_text_one_line(v[i]);
    }
    lemma_array_one_line(items);
}

/// The JSON text of a server list is on one line and is not empty.
pub proof fn lemma_server_list_text_one_line(v: Seq<ServerInfoView>)
    ensures
        one_line(json_text_of_server_list(v)),
        json_text_of_server_list(v).len() > 0,
{
    let items = v.map_values(|t: ServerInfoView| json_text_of_server(t));
    assert forall|i: int| 0 <= i < items.len() implies one_line(#[trigger] items[i]) by {
        let t = v[i];
        let parts = seq![json_text_of_string(t.0), json_text_of_strings(t.1), json_text_of_strings(t.2)];
        lemma_string_text_one_line(t.0);
        lemma_strings_text_one_line(t.1);
        lemma_strings_text_one_line(t.2);
        assert forall|j: int| 0 <= j < parts.len() implies one_line(#[trigger] parts[j]) by {}
        lemma_array_one_line(parts);
    }
    lemma_array_one_line(items);
}

/// A text on one line that is not empty is one piece.
pub proof fn lemma_pieces_one_line(x: Seq<char>)
    requires
        one_line(x),
        x.len() > 0,
    ensures
        pieces(x) == seq![x],
    decreases x.len(),
{
    if x.len() == 1 {
        assert(x[0] != '\n');
        assert(x.drop_last() =~= Seq::<char>::empty());
        assert(pieces(x.drop_last()) =~= Seq::<Seq<char>>::empty());
        assert(seq![x.last()] =~= x);
        assert(Seq::<Seq<char>>::empty().push(seq![x.last()]) =~= seq![x]);
    } else {
        let y = x.drop_last();
        assert(one_line(y)) by {
            assert forall|i: int| 0 <= i < y.len() implies #[trigger] y[i] != '\n' && y[i] != '\r' by {
                assert(y[i] == x[i]);
            }
        }
        lemma_pieces_one_line(y);
        assert(x[x.len() - 2] != '\n' && x[x.len() - 1] != '\n');
        assert(y.push(x.last()) =~= x);
        assert(seq![y].drop_last() =~= Seq::<Seq<char>>::empty());
        assert(seq![y].last() == y);
        assert(seq![x] =~= seq![y].drop_last().push(seq![y].last().push(x.last())));
    }
}

/// A text on one line followed by a line feed is one piece.
pub proof fn lemma_pieces_line(x: Seq<char>)
    requires
        one_line(x),
    ensures
        pieces(x.push('\n')) == seq![x],
{
    let z = x.push('\n');
    assert(z.drop_last() =~= x);
    if x.len() == 0 {
        assert(x =~= Seq::<char>::empty());
        assert(pieces(x) =~= Seq::<Seq<char>>::empty());
        assert(seq![x] =~= Seq::<Seq<char>>::empty().push(Seq::<char>::empty()));
    } else {
        lemma_pieces_one_line(x);
        assert(z[z.len() - 2] == x[x.len() - 1]);
    }
}

/// A text that ends a line, followed by more text: the pieces of the whole
/// are the pieces of the first, then those of the second.
pub proof fn lemma_pieces_append(a: Seq<char>, b: Seq<char>)
    requires
        a.len() == 0 || a.last() == '\n',
    ensures
        pieces(a + b) == pieces(a) + pieces(b),
    decreases b.len(),
{
    if b.len() == 0 {
        assert(a + b =~= a);
        assert(pieces(b) =~= Seq::<Seq<char>>::empty());
        assert(pieces(a) + pieces(b) =~= pieces(a));
    } else {
        let b2 = b.drop_last();
        lemma_pieces_append(a, b2);
        let ab = a + b;
        assert(ab.drop_last() =~= a + b2);
        assert(ab.last() == b.last());
        let open_ab = ab.len() >= 2 && ab[ab.len() - 2] != '\n';
        let open_b = b.len() >= 2 && b[b.len() - 2] != '\n';
        if b.len() >= 2 {
            assert(ab[ab.len() - 2] == b[b.len() - 2]);
        } else if a.len() > 0 {
            assert(ab[ab.len() - 2] == a.last());
        }
        assert(open_ab == open_b);
        let p = pieces(a);
        let q = pieces(b2);
        if open_b {
            assert(b2.len() > 0);
            lemma_pieces_nonempty(b2);
        }
        if b.last() == '\n' {
            if !open_b {
                assert((p + q).push(Seq::empty()) =~= p + q.push(Seq::empty()));
            }
        } else if open_b {
            assert((p + q).drop_last().push((p + q).last().push(b.last())) =~= p + q.drop_last().push(
                q.last().push(b.last()),
            ));
        } else {
            assert((p + q).push(seq![b.last()]) =~= p + q.push(seq![b.last()]));
        }
    }
}

/// A text that is not empty has a piece.
pub proof fn lemma_pieces_nonempty(x: Seq<char>)
    requires
        x.len() > 0,
    ensures
        pieces(x).len() > 0,
    decreases x.len(),
{
    if x.len() > 1 {
        lemma_pieces_nonempty(x.drop_last());
    }
}

/// Lines on one line each, joined by line feeds, with a last line that is
/// not empty, split back into those lines.
pub proof fn lemma_lines_of_joined(parts: Seq<Seq<char>>)
    requires
        parts.len() >= 1,
        forall|i: int| 0 <= i < parts.len() ==> one_line(#[trigger] parts[i]),
        parts.last().len() > 0,
    ensures
        text_lines(joined(parts, seq!['\n'])) == parts,
{
    let j = joined(parts, seq!['\n']);
    lemma_pieces_of_joined(parts);
    assert(pieces(j) == parts);
    assert(j.len() > 0 && j.last() != '\n') by {
        if parts.len() == 1 {
            assert(j == parts[0]);
        } else {
            let a = joined(parts.drop_last(), seq!['\n']) + seq!['\n'];
            assert(j == a + parts.last());
            assert(j.last() == parts.last().last());
        }
        assert(one_line(parts[parts.len() - 1]));
        assert(parts.last()[parts.last().len() - 1] != '\n');
    }
    assert forall|k: int| 0 <= k < parts.len() implies without_cr(#[trigger] parts[k]) == parts[k] by {
        assert(one_line(parts[k]));
        if parts[k].len() > 0 {
            assert(parts[k][parts[k].len() - 1] != '\r');
        }
    }
    assert(text_lines(j) =~= parts);
}

/// The pieces of lines on one line each, joined by line feeds, with a last
/// line that is not empty.
pub proof fn lemma_pieces_of_joined(parts: Seq<Seq<char>>)
    requires
        parts.len() >= 1,
        forall|i: int| 0 <= i < parts.len() ==> one_line(#[trigger] parts[i]),
        parts.last().len() > 0,
    ensures
        pieces(joined(parts, seq!['\n'])) == parts,
{
    if parts.len() == 1 {
        lemma_pieces_one_line(parts[0]);
        assert(seq![parts[0]] =~= parts);
    } else {
        let init = parts.drop_last();
        assert forall|i: int| 0 <= i < init.len() implies one_line(#[trigger] init[i]) by {
            assert(init[i] == parts[i]);
        }
        lemma_pieces_of_lines(init);
        let a = joined(init, seq!['\n']) + seq!['\n'];
        assert(a == joined(init, seq!['\n']).push('\n'));
        assert(one_line(parts[parts.len() - 1]));
        lemma_pieces_append(a, parts.last());
        lemma_pieces_one_line(parts.last());
        assert(joined(parts, seq!['\n']) == a + parts.last());
        assert(init + seq![parts.last()] =~= parts);
    }
}

/// Lines on one line each, each followed by a line feed: the pieces are the
/// lines.
pub proof fn lemma_pieces_of_lines(parts: Seq<Seq<char>>)
    requires
        parts.len() >= 1,
        forall|i: int| 0 <= i < parts.len() ==> one_line(#[trigger] parts[i]),
    ensures
        pieces(joined(parts, seq!['\n']).push('\n')) == parts,
    decreases parts.len(),
{
    if parts.len() == 1 {
        assert(one_line(parts[0]));
        lemma_pieces_line(parts[0]);
        assert(seq![parts[0]] =~= parts);
    } else {
        let init = parts.drop_last();
        assert forall|i: int| 0 <= i < init.len() implies one_line(#[trigger] init[i]) by {
            assert(init[i] == parts[i]);
        }
        lemma_pieces_of_lines(init);
        let a = joined(init, seq!['\n']).push('\n');
        let l = parts.last();
        assert(one_line(parts[parts.len() - 1]));
        lemma_pieces_append(a, l.push('\n'));
        lemma_pieces_line(l);
        assert(joined(parts, seq!['\n']).push('\n') =~= a + l.push('\n'));
        assert(init + seq![l] =~= parts);
    }
}

/// `serde_json::from_str::<String>`: the string that `text` holds as JSON;
/// `None` where the text holds no JSON string.  Claimed: the result is
/// `string_of_json` of the text.
#[verifier::external_body]
pub(crate) fn parse_json_string(text: &str) -> (r: Option<String>)
    ensures
        match r {
            Some(s) => string_of_json(text@) == Some(s@),
            None => string_of_json(text@) is None,
        },
{
    serde_json::from_str::<String>(text).ok()
}

/// `serde_json::from_str::<Vec<String>>`: the list of strings that `text`
/// holds as JSON.  Claimed: the result is `strings_of_json` of the text.
#[verifier::external_body]
pub(crate) fn parse_json_strings(text: &str) -> (r: Option<Vec<String>>)
    ensures
        match r {
            Some(v) => strings_of_json(text@) == Some(texts(v@)),
            None => strings_of_json(text@) is None,
        },
{
    serde_json::from_str::<Vec<String>>(text).ok()
}

/// `serde_json::from_str::<Vec<(String, Vec<String>, Vec<String>)>>`: the
/// server list that `text` holds as JSON.  Claimed: the result is
/// `server_list_of_json` of the text.
#[verifier::external_body]
pub(crate) fn parse_server_list(text: &str) -> (r: Option<Vec<ServerInfo>>)
    ensures
        match r {
            Some(v) => server_list_of_json(text@) == Some(server_views(v@)),
            None => server_list_of_json(text@) is None,
        },
{
    serde_json::from_str::<Vec<ServerInfo>>(text).ok()
}

/// `serde_json::to_string` of a string.  Claimed: it writes the text
/// `json_text_of_string` (ser.rs `format_escaped_str` with the compact
/// formatter), it does not fail for a string, and `serde_json` reads that
/// text back as the same string.
#[verifier::external_body]
pub(crate) fn string_to_json(s: &String) -> (r: Option<String>)
    ensures
        r is Some,
        r.unwrap()@ == json_text_of_string(s@),
        string_of_json(r.unwrap()@) == Some(s@),
{
    serde_json::to_string(s).ok()
}

/// `serde_json::to_string` of a list of strings.  Claimed: it writes the
/// text `json_text_of_strings`, it does not fail, and `serde_json` reads that
/// text back as the same list.
#[verifier::external_body]
pub(crate) fn strings_to_json(v: &Vec<String>) -> (r: Option<String>)
    ensures
        r is Some,
        r.unwrap()@ == json_text_of_strings(texts(v@)),
        strings_of_json(r.unwrap()@) == Some(texts(v@)),
{
    serde_json::to_string(v).ok()
}

/// `serde_json::to_string` of a server list.  Claimed: it writes the text
/// `json_text_of_server_list`, it does not fail, and `serde_json` reads that
/// text back as the same list.
#[verifier::external_body]
pub(crate) fn server_list_to_json(v: &Vec<ServerInfo>) -> (r: Option<String>)
    ensures
        r is Some,
        r.unwrap()@ == json_text_of_server_list(server_views(v@)),
        server_list_of_json(r.unwrap()@) == Some(server_views(v@)),
{
    serde_json::to_string(v).ok()
}

} // verus!
