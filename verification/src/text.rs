//! Text handling that the client and the server share: splitting a line
//! into words, joining words, reading a decimal `i32`, and looking for a
//! piece of text inside another.

use vstd::prelude::*;
use vstd::string::*;

verus! {

/// The characters that Unicode calls white space.
pub open spec fn is_space(c: char) -> bool {
    let n = c as u32;
    ||| 0x9 <= n <= 0xD
    ||| n == 0x20
    ||| n == 0x85
    ||| n == 0xA0
    ||| n == 0x1680
    ||| 0x2000 <= n <= 0x200A
    ||| n == 0x2028
    ||| n == 0x2029
    ||| n == 0x202F
    ||| n == 0x205F
    ||| n == 0x3000
}

/// Whether `c` is white space.
pub fn char_is_space(c: char) -> (b: bool)
    ensures
        b == is_space(c),
{
    let n = c as u32;
    (0x9 <= n && n <= 0xD) || n == 0x20 || n == 0x85 || n == 0xA0 || n == 0x1680 || (0x2000 <= n
        && n <= 0x200A) || n == 0x2028 || n == 0x2029 || n == 0x202F || n == 0x205F || n == 0x3000
}

/// The words of `s`: its longest runs of characters that are not white space,
/// in order.
pub open spec fn words(s: Seq<char>) -> Seq<Seq<char>>
    decreases s.len(),
{
    if s.len() == 0 {
        Seq::empty()
    } else {
        let w = words(s.drop_last());
        let c = s.last();
        if is_space(c) {
            w
        } else if s.len() >= 2 && !is_space(s[s.len() - 2]) {
            w.drop_last().push(w.last().push(c))
        } else {
            w.push(seq![c])
        }
    }
}

/// The characters of each string of `v`.
pub open spec fn texts(v: Seq<String>) -> Seq<Seq<char>> {
    v.map_values(|s: String| s@)
}

/// The words of `s`, split at white space.
pub fn split_words(s: &str) -> (r: Vec<String>)
    ensures
        texts(r@) == words(s@),
{
    let n = s.unicode_len();
    let mut out: Vec<String> = Vec::new();
    let mut start: usize = 0;
    let mut in_word = false;
    let mut i: usize = 0;
    while i < n
        invariant
            n == s@.len(),
            i <= n,
            in_word == (i > 0 && !is_space(s@[i - 1])),
            in_word ==> start < i && words(s@.take(i as int)) == texts(out@).push(s@.subrange(start as int, i as int)),
            !in_word ==> words(s@.take(i as int)) == texts(out@),
        decreases n - i,
    {
        let c = s.get_char(i);
        let ghost pre = s@.take(i as int);
        let ghost next = s@.take(i + 1);
        assert(next.drop_last() =~= pre);
        assert(next.last() == c);
        if char_is_space(c) {
            if in_word {
                let w = s.substring_char(start, i);
                let ghost old_out = out@;
                out.push(w.to_owned());
                assert(texts(out@) =~= texts(old_out).push(w@));
            }
            in_word = false;
        } else {
            if in_word {
                assert(next.len() >= 2 && next[next.len() - 2] == s@[i - 1]);
                assert(s@.subrange(start as int, i + 1) =~= s@.subrange(start as int, i as int).push(c));
                assert(texts(out@).push(s@.subrange(start as int, i as int)).drop_last() =~= texts(out@));
            } else {
                start = i;
                assert(s@.subrange(start as int, i + 1) =~= seq![c]);
            }
            in_word = true;
        }
        i = i + 1;
    }
    if in_word {
        let w = s.substring_char(start, n);
        let ghost old_out = out@;
        out.push(w.to_owned());
        assert(texts(out@) =~= texts(old_out).push(w@));
    }
    assert(s@.take(n as int) =~= s@);
    assert(texts(out@) =~= words(s@));
    out
}

/// `parts` joined with `sep` between each two.
pub open spec fn joined(parts: Seq<Seq<char>>, sep: Seq<char>) -> Seq<char>
    decreases parts.len(),
{
    if parts.len() == 0 {
        Seq::empty()
    } else if parts.len() == 1 {
        parts[0]
    } else {
        joined(parts.drop_last(), sep) + sep + parts.last()
    }
}

/// The strings of `parts` from position `from` on, joined with `sep`.
pub fn join_from(parts: &Vec<String>, from: usize, sep: &str) -> (r: String)
    requires
        from <= parts@.len(),
    ensures
        r@ == joined(texts(parts@).skip(from as int), sep@),
{
    let mut r = String::new();
    let mut i = from;
    while i < parts.len()
        invariant
            from <= i <= parts@.len(),
            r@ == joined(texts(parts@).subrange(from as int, i as int), sep@),
        decreases parts@.len() - i,
    {
        let ghost done = texts(parts@).subrange(from as int, i as int);
        let ghost more = texts(parts@).subrange(from as int, i + 1);
        assert(more.drop_last() =~= done);
        if i > from {
            r.append(sep);
        } else {
            assert(done.len() == 0);
            assert(r@ =~= Seq::<char>::empty());
        }
        r.append(parts[i].as_str());
        proof {
            if i > from {
                assert(r@ =~= joined(done, sep@) + sep@ + parts@[i as int]@);
            } else {
                assert(r@ =~= parts@[i as int]@);
            }
        }
        i = i + 1;
    }
    assert(texts(parts@).subrange(from as int, parts@.len() as int) =~= texts(parts@).skip(from as int));
    r
}

/// The value of a digit character.
pub open spec fn digit_value(c: char) -> int {
    c as int - '0' as int
}

/// Every character of `d` is an ASCII digit.
pub open spec fn all_digits(d: Seq<char>) -> bool {
    forall|i: int| 0 <= i < d.len() ==> '0' <= #[trigger] d[i] <= '9'
}

/// The number that the decimal digits `d` write.
pub open spec fn decimal(d: Seq<char>) -> int
    decreases d.len(),
{
    if d.len() == 0 {
        0
    } else {
        decimal(d.drop_last()) * 10 + digit_value(d.last())
    }
}

/// The `i32` that `s` writes in decimal, as Rust's `str::parse` reads it:
/// an optional `+` or `-`, then one digit or more, within the range of
/// `i32`.
pub open spec fn parsed_i32(s: Seq<char>) -> Option<i32> {
    if s.len() == 0 {
        None
    } else if s[0] == '-' {
        let d = s.skip(1);
        if d.len() > 0 && all_digits(d) && -decimal(d) >= i32::MIN {
            Some((-decimal(d)) as i32)
        } else {
            None
        }
    } else {
        let d = if s[0] == '+' { s.skip(1) } else { s };
        if d.len() > 0 && all_digits(d) && decimal(d) <= i32::MAX {
            Some(decimal(d) as i32)
        } else {
            None
        }
    }
}

/// A longer run of digits writes a number at least as large.
pub proof fn lemma_decimal_grows(d: Seq<char>, k: int)
    requires
        all_digits(d),
        0 <= k <= d.len(),
    ensures
        decimal(d.take(k)) <= decimal(d),
        0 <= decimal(d.take(k)),
    decreases d.len() - k,
{
    if k < d.len() {
        let t = d.take(k + 1);
        assert(t.drop_last() =~= d.take(k));
        assert('0' <= d[k] <= '9');
        lemma_decimal_grows(d, k + 1);
    } else {
        assert(d.take(k) =~= d);
        lemma_decimal_nonneg(d);
    }
}

/// Digits write a number that is not negative.
pub proof fn lemma_decimal_nonneg(d: Seq<char>)
    requires
        all_digits(d),
    ensures
        0 <= decimal(d),
    decreases d.len(),
{
    if d.len() > 0 {
        let t = d.drop_last();
        assert(all_digits(t)) by {
            assert forall|i: int| 0 <= i < t.len() implies '0' <= #[trigger] t[i] <= '9' by {
                assert(t[i] == d[i]);
            }
        }
        assert('0' <= d[d.len() - 1] <= '9');
        lemma_decimal_nonneg(t);
    }
}

/// Reads the digits of `s` from position `from` on; `None` when there are
/// none, when one is not a digit, or when they write a number above `limit`.
fn read_digits(s: &str, from: usize, limit: i64) -> (r: Option<i64>)
    requires
        from <= s@.len(),
        0 <= limit <= 0x8000_0000,
    ensures
        match r {
            Some(v) => {
                let d = s@.skip(from as int);
                d.len() > 0 && all_digits(d) && v == decimal(d) && v <= limit
            },
            None => {
                let d = s@.skip(from as int);
                !(d.len() > 0 && all_digits(d) && decimal(d) <= limit)
            },
        },
{
    let n = s.unicode_len();
    let ghost d = s@.skip(from as int);
    if from == n {
        return None;
    }
    let mut acc: i64 = 0;
    let mut i = from;
    while i < n
        invariant
            n == s@.len(),
            from <= i <= n,
            d == s@.skip(from as int),
            0 <= limit <= 0x8000_0000,
            0 <= acc <= limit,
            all_digits(d.take(i - from)),
            acc == decimal(d.take(i - from)),
        decreases n - i,
    {
        let c = s.get_char(i);
        let ghost pre = d.take(i - from);
        let ghost next = d.take(i - from + 1);
        assert(next.drop_last() =~= pre);
        assert(next.last() == c);
        if c < '0' || c > '9' {
            assert(d[i - from] == c);
            return None;
        }
        let v = (c as u32 - '0' as u32) as i64;
        let grown = acc * 10 + v;
        assert(all_digits(next)) by {
            assert forall|j: int| 0 <= j < next.len() implies '0' <= #[trigger] next[j] <= '9' by {
                if j < pre.len() {
                    assert(next[j] == pre[j]);
                }
            }
        }
        if grown > limit {
            proof {
                if all_digits(d) {
                    lemma_decimal_grows(d, i - from + 1);
                }
            }
            return None;
        }
        acc = grown;
        i = i + 1;
    }
    assert(d.take(n - from) =~= d);
    Some(acc)
}

/// The `i32` that `s` writes in decimal, read as Rust's `str::parse` reads
/// it; `None` where it reads none.
pub fn parse_i32(s: &str) -> (r: Option<i32>)
    ensures
        r == parsed_i32(s@),
{
    let n = s.unicode_len();
    if n == 0 {
        return None;
    }
    let first = s.get_char(0);
    if first == '-' {
        match read_digits(s, 1, 0x8000_0000) {
            Some(v) => {
                proof {
                    lemma_decimal_nonneg(s@.skip(1));
                }
                Some((0 - v) as i32)
            },
            None => None,
        }
    } else {
        let from: usize = if first == '+' { 1 } else { 0 };
        assert(from == 0 ==> s@.skip(0) =~= s@);
        match read_digits(s, from, 0x7fff_ffff) {
            Some(v) => {
                proof {
                    lemma_decimal_nonneg(s@.skip(from as int));
                }
                Some(v as i32)
            },
            None => None,
        }
    }
}

/// `needle` occurs in `hay` at position `i`.
pub open spec fn occurs_at(hay: Seq<char>, needle: Seq<char>, i: int) -> bool {
    0 <= i && i + needle.len() <= hay.len() && hay.subrange(i, i + needle.len()) == needle
}

/// `needle` occurs somewhere in `hay`.
pub open spec fn occurs_in(hay: Seq<char>, needle: Seq<char>) -> bool {
    exists|i: int| occurs_at(hay, needle, i)
}

/// Whether `needle` occurs in `hay`.
pub fn contains_text(hay: &str, needle: &str) -> (b: bool)
    ensures
        b == occurs_in(hay@, needle@),
{
    let n = hay.unicode_len();
    let m = needle.unicode_len();
    if m > n {
        assert forall|i: int| !occurs_at(hay@, needle@, i) by {}
        return false;
    }
    let mut i: usize = 0;
    while i <= n - m
        invariant
            n == hay@.len(),
            m == needle@.len(),
            m <= n,
            i <= n - m + 1,
            forall|j: int| 0 <= j < i ==> !occurs_at(hay@, needle@, j),
        decreases n - m + 1 - i,
    {
        let mut k: usize = 0;
        let mut same = true;
        while k < m
            invariant
                n == hay@.len(),
                m == needle@.len(),
                i + m <= n,
                k <= m,
                same == (forall|j: int| 0 <= j < k ==> hay@[i + j] == needle@[j]),
            decreases m - k,
        {
            if hay.get_char(i + k) != needle.get_char(k) {
                same = false;
            }
            k = k + 1;
        }
        if same {
            assert(hay@.subrange(i as int, i + m) =~= needle@);
            assert(occurs_at(hay@, needle@, i as int));
            return true;
        }
        assert(!occurs_at(hay@, needle@, i as int)) by {
            if hay@.subrange(i as int, i + m) =~= needle@ {
                assert forall|j: int| 0 <= j < m implies hay@[i + j] == needle@[j] by {
                    assert(hay@.subrange(i as int, i + m)[j] == hay@[i + j]);
                }
            }
        }
        i = i + 1;
    }
    false
}

/// The characters of `s`, one by one.
pub fn chars_of(s: &str) -> (v: Vec<char>)
    ensures
        v@ == s@,
{
    broadcast use vstd::string::group_string_axioms;

    let mut v: Vec<char> = Vec::new();
    for c in it: s.chars()
        invariant
            v@ == it.seq().take(it.index() as int),
    {
        v.push(c);
    }
    v
}

/// The pieces of `s` between line feeds: each line feed ends a piece, and
/// what follows the last line feed, if anything, is the last piece.
pub open spec fn pieces(s: Seq<char>) -> Seq<Seq<char>>
    decreases s.len(),
{
    if s.len() == 0 {
        Seq::empty()
    } else {
        let r = pieces(s.drop_last());
        let c = s.last();
        let open = s.len() >= 2 && s[s.len() - 2] != '\n';
        if c == '\n' {
            if open {
                r
            } else {
                r.push(Seq::empty())
            }
        } else if open {
            r.drop_last().push(r.last().push(c))
        } else {
            r.push(seq![c])
        }
    }
}

/// A piece that a line feed ended, without the carriage return before the
/// line feed, if there is one.
pub open spec fn without_cr(p: Seq<char>) -> Seq<char> {
    if p.len() > 0 && p.last() == '\r' {
        p.drop_last()
    } else {
        p
    }
}

/// The lines of `s`, as Rust's `str::lines` gives them: split at each line
/// feed, a carriage return just before a line feed dropped, and no empty
/// line after a final line feed.
pub open spec fn text_lines(s: Seq<char>) -> Seq<Seq<char>> {
    let p = pieces(s);
    Seq::new(
        p.len(),
        |j: int|
            if j < p.len() - 1 || s.last() == '\n' {
                without_cr(p[j])
            } else {
                p[j]
            },
    )
}

/// The lines of `s`.
pub fn split_lines(s: &str) -> (r: Vec<String>)
    ensures
        texts(r@) == text_lines(s@),
{
    let v = chars_of(s);
    let n = v.len();
    let mut out: Vec<String> = Vec::new();
    let ghost mut raw: Seq<Seq<char>> = Seq::empty();
    let mut start: usize = 0;
    let mut i: usize = 0;
    while i < n
        invariant
            n == s@.len(),
            v@ == s@,
            start <= i <= n,
            (i > 0 && s@[i - 1] != '\n') ==> start < i && pieces(s@.take(i as int)) == raw.push(
                s@.subrange(start as int, i as int),
            ),
            !(i > 0 && s@[i - 1] != '\n') ==> start == i && pieces(s@.take(i as int)) == raw,
            texts(out@) == raw.map_values(|p: Seq<char>| without_cr(p)),
        decreases n - i,
    {
        let c = v[i];
        let ghost pre = s@.take(i as int);
        let ghost next = s@.take(i + 1);
        assert(next.drop_last() =~= pre);
        assert(next.last() == c);
        if i > 0 {
            assert(next[next.len() - 2] == s@[i - 1]);
        }
        if c == '\n' {
            let end = if i > start && v[i - 1] == '\r' { i - 1 } else { i };
            let piece = s.substring_char(start, end);
            let ghost whole = s@.subrange(start as int, i as int);
            assert(piece@ =~= without_cr(whole));
            let ghost old_out = out@;
            out.push(piece.to_owned());
            proof {
                raw = raw.push(whole);
                assert(texts(out@) =~= texts(old_out).push(piece@));
                assert(raw.map_values(|p: Seq<char>| without_cr(p)) =~= raw.drop_last().map_values(
                    |p: Seq<char>| without_cr(p),
                ).push(without_cr(whole)));
                if !(i > 0 && s@[i - 1] != '\n') {
                    assert(whole =~= Seq::<char>::empty());
                }
            }
            start = i + 1;
        } else {
            if i > 0 && v[i - 1] != '\n' {
                assert(s@.subrange(start as int, i + 1) =~= s@.subrange(start as int, i as int).push(c));
                assert(raw.push(s@.subrange(start as int, i as int)).drop_last() =~= raw);
            } else {
                start = i;
                assert(s@.subrange(start as int, i + 1) =~= seq![c]);
            }
        }
        i = i + 1;
    }
    assert(s@.take(n as int) =~= s@);
    if start < n {
        let piece = s.substring_char(start, n);
        let ghost old_out = out@;
        out.push(piece.to_owned());
        proof {
            assert(texts(out@) =~= texts(old_out).push(piece@));
            let p = raw.push(piece@);
            assert(texts(out@) =~= text_lines(s@));
        }
    } else {
        assert(texts(out@) =~= text_lines(s@));
    }
    out
}

} // verus!
