//! The client's side: reading a command line into a request, and turning
//! the server's response into the line the user sees.
//!
//! Commands: `shutdown`; `get <key>` and `get <port> <key>`; `set <key> <value>`,
//! `set <key> <value> ex <life span>` and `set <port> <key> <value>`;
//! `del <key>`; `ping [text]`.  A line with a word that names no command
//! is still sent, as the blank request, after a notice.

use vstd::prelude::*;
use vstd::string::*;
use crate::message::{GetItemRequest, GetItemResponse, RequestView, ResponseView, text, text_is};
use crate::text::{words, texts, joined, parsed_i32, split_words, join_from, parse_i32};

verus! {

/// A command used the wrong way; each has its own usage line.
#[derive(Debug, Clone, Copy, PartialEq, Eq)]
pub enum Usage {
    OfShutdown,
    OfGet,
    OfSet,
    OfDel,
}

/// What a command line asks for.
#[derive(Debug)]
pub enum Command {
    /// The line holds no word.
    Empty,
    /// A command used the wrong way: nothing is sent.
    Misused(Usage),
    /// The life span of `set <key> <value> ex <life span>` is no `i32`.
    BadLife,
    /// A request to send.
    Send(GetItemRequest),
    /// No command has this name: a notice, then the request is sent.
    Unknown(GetItemRequest),
}

/// What a command line asks for, as mathematical values.
pub enum CommandView {
    Empty,
    Misused(Usage),
    BadLife,
    Send(RequestView),
    Unknown(RequestView),
}

impl View for Command {
    type V = CommandView;

    open spec fn view(&self) -> CommandView {
        match self {
            Command::Empty => CommandView::Empty,
            Command::Misused(u) => CommandView::Misused(*u),
            Command::BadLife => CommandView::BadLife,
            Command::Send(r) => CommandView::Send(r@),
            Command::Unknown(r) => CommandView::Unknown(r@),
        }
    }
}

/// A request with the given texts and life span.
pub open spec fn request(op: Seq<char>, key: Seq<char>, value: Seq<char>, life: i32, otherport: Seq<char>) -> RequestView {
    RequestView { op, key, value, life, otherport }
}

/// What the words `w` of a command line ask for.
pub open spec fn command_of(w: Seq<Seq<char>>) -> CommandView {
    let blank = " "@;
    if w.len() == 0 {
        CommandView::Empty
    } else if w[0] == "shutdown"@ {
        if w.len() != 1 {
            CommandView::Misused(Usage::OfShutdown)
        } else {
            CommandView::Send(request("shutdown"@, blank, blank, 0, blank))
        }
    } else if w[0] == "get"@ {
        if w.len() == 2 {
            CommandView::Send(request("get"@, w[1], blank, 0, blank))
        } else if w.len() == 3 {
            CommandView::Send(request("getport"@, w[2], blank, 0, w[1]))
        } else {
            CommandView::Misused(Usage::OfGet)
        }
    } else if w[0] == "set"@ {
        if w.len() == 3 {
            CommandView::Send(request("set"@, w[1], w[2], 0, blank))
        } else if w.len() == 5 && w[3] == "ex"@ {
            match parsed_i32(w[4]) {
                Some(life) => CommandView::Send(request("setex"@, w[1], w[2], life, blank)),
                None => CommandView::BadLife,
            }
        } else if w.len() == 4 {
            CommandView::Send(request("setport"@, w[2], w[3], 0, w[1]))
        } else {
            CommandView::Misused(Usage::OfSet)
        }
    } else if w[0] == "del"@ {
        if w.len() != 2 {
            CommandView::Misused(Usage::OfDel)
        } else {
            CommandView::Send(request("del"@, w[1], blank, 0, blank))
        }
    } else if w[0] == "ping"@ {
        CommandView::Send(request("ping"@, joined(w.skip(1), " "@), blank, 0, blank))
    } else {
        CommandView::Unknown(request(blank, blank, blank, 0, blank))
    }
}

/// Reads a command line.
pub fn parse_command(line: &str) -> (c: Command)
    ensures
        c@ == command_of(words(line@)),
{
    let w = split_words(line);
    let ghost ws = texts(w@);
    let n = w.len();
    if n == 0 {
        return Command::Empty;
    }
    if text_is(&w[0], "shutdown") {
        if n != 1 {
            return Command::Misused(Usage::OfShutdown);
        }
        let mut r = GetItemRequest::blank();
        r.op = text("shutdown");
        return Command::Send(r);
    } else if text_is(&w[0], "get") {
        if n == 2 {
            let r = GetItemRequest::new(text("get"), w[1].clone(), text(" "), 0, text(" "));
            return Command::Send(r);
        } else if n == 3 {
            let r = GetItemRequest::new(text("getport"), w[2].clone(), text(" "), 0, w[1].clone());
            return Command::Send(r);
        }
        return Command::Misused(Usage::OfGet);
    } else if text_is(&w[0], "set") {
        if n == 3 {
            let r = GetItemRequest::new(text("set"), w[1].clone(), w[2].clone(), 0, text(" "));
            return Command::Send(r);
        } else if n == 5 && text_is(&w[3], "ex") {
            match parse_i32(w[4].as_str()) {
                Some(life) => {
                    let r = GetItemRequest::new(text("setex"), w[1].clone(), w[2].clone(), life, text(" "));
                    return Command::Send(r);
                },
                None => {
                    return Command::BadLife;
                },
            }
        } else if n == 4 {
            let r = GetItemRequest::new(text("setport"), w[2].clone(), w[3].clone(), 0, w[1].clone());
            return Command::Send(r);
        }
        return Command::Misused(Usage::OfSet);
    } else if text_is(&w[0], "del") {
        if n != 2 {
            return Command::Misused(Usage::OfDel);
        }
        let r = GetItemRequest::new(text("del"), w[1].clone(), text(" "), 0, text(" "));
        return Command::Send(r);
    } else if text_is(&w[0], "ping") {
        let key = join_from(&w, 1, " ");
        let r = GetItemRequest::new(text("ping"), key, text(" "), 0, text(" "));
        return Command::Send(r);
    }
    Command::Unknown(GetItemRequest::blank())
}

/// The line shown for a line with no word.
pub open spec fn empty_notice() -> Seq<char> {
    "输入为空，请重新输入："@
}

/// The line shown for a word that names no command.
pub open spec fn unknown_notice() -> Seq<char> {
    "该指令不存在, 请重新输入"@
}

/// The line shown when the life span of `set ... ex` is not a number.
pub open spec fn bad_life_notice() -> Seq<char> {
    "您输入的不是正整数"@
}

/// The usage line of each command.
pub open spec fn usage_line(u: Usage) -> Seq<char> {
    match u {
        Usage::OfShutdown => "用法： shutdown, 请重新输入"@,
        Usage::OfGet => "用法： get <key> \n或者 get <port> <key>, 请重新输入"@,
        Usage::OfSet => "用法： set <key> <value> \n或者 set <key> <value> ex <life span> \n或者 set <port> <key> <value>, 请重新输入"@,
        Usage::OfDel => "用法： del <key>, 请重新输入"@,
    }
}

/// The line the user is shown for a command before anything is sent, if any.
pub open spec fn notice_of(c: CommandView) -> Option<Seq<char>> {
    match c {
        CommandView::Empty => Some(empty_notice()),
        CommandView::Misused(u) => Some(usage_line(u)),
        CommandView::BadLife => Some(bad_life_notice()),
        CommandView::Send(_) => None,
        CommandView::Unknown(_) => Some(unknown_notice()),
    }
}

/// The line the user is shown for command `c` before anything is sent, if
/// any.
pub fn notice(c: &Command) -> (r: Option<String>)
    ensures
        match (r, notice_of(c@)) {
            (Some(s), Some(t)) => s@ == t,
            (None, None) => true,
            _ => false,
        },
{
    match c {
        Command::Empty => Some(text("输入为空，请重新输入：")),
        Command::Misused(u) => Some(
            match u {
                Usage::OfShutdown => text("用法： shutdown, 请重新输入"),
                Usage::OfGet => text("用法： get <key> \n或者 get <port> <key>, 请重新输入"),
                Usage::OfSet => text(
                    "用法： set <key> <value> \n或者 set <key> <value> ex <life span> \n或者 set <port> <key> <value>, 请重新输入",
                ),
                Usage::OfDel => text("用法： del <key>, 请重新输入"),
            },
        ),
        Command::BadLife => Some(text("您输入的不是正整数")),
        Command::Send(_) => None,
        Command::Unknown(_) => Some(text("该指令不存在, 请重新输入")),
    }
}

/// What the user is shown for a response.
#[derive(Debug)]
pub enum Shown {
    /// A line to print.
    Line(String),
    /// The server shut down: the client stops.
    Exit,
    /// A response that answers no known operation.
    Unexpected,
}

/// What the user is shown for a response, as mathematical values.
pub enum ShownView {
    Line(Seq<char>),
    Exit,
    Unexpected,
}

impl View for Shown {
    type V = ShownView;

    open spec fn view(&self) -> ShownView {
        match self {
            Shown::Line(s) => ShownView::Line(s@),
            Shown::Exit => ShownView::Exit,
            Shown::Unexpected => ShownView::Unexpected,
        }
    }
}

/// What the user is shown for response `r`.
pub open spec fn shown_of(r: ResponseView) -> ShownView {
    let q = "\""@;
    if r.op == "get"@ {
        if r.state {
            ShownView::Line("The value of key "@ + q + r.key + q + " is "@ + q + r.value + q)
        } else {
            ShownView::Line("The value of key "@ + q + r.key + q + " does not exist"@)
        }
    } else if r.op == "set"@ || r.op == "setex"@ {
        if !r.state {
            ShownView::Line(
                "The value of key "@ + q + r.key + q + " is "@ + q + r.value + q + ", which already exists"@,
            )
        } else {
            ShownView::Line("Successfully inserted"@)
        }
    } else if r.op == "setslave"@ {
        ShownView::Line("You can not set the slave, the master port is "@ + q + r.value + q)
    } else if r.op == "del"@ {
        if r.state {
            ShownView::Line("Successfully deleted"@)
        } else {
            ShownView::Line("The value of key "@ + q + r.key + q + " does not exist"@)
        }
    } else if r.op == "ping"@ {
        if r.key.len() == 0 {
            ShownView::Line("pong"@)
        } else {
            ShownView::Line("pong "@ + q + r.key + q)
        }
    } else if r.op == "setportfail"@ || r.op == "getportfail"@ {
        ShownView::Line("You are not using the proxy, the proxy port is "@ + q + r.value + q)
    } else if r.op == "shutdown"@ {
        if r.state {
            ShownView::Exit
        } else {
            ShownView::Line("Error on shutdown"@)
        }
    } else {
        ShownView::Unexpected
    }
}

/// `a`, then `s` in double quotes.
fn then_quoted(a: String, s: &String) -> (r: String)
    ensures
        r@ == a@ + "\""@ + s@ + "\""@,
{
    let mut r = a;
    r.append("\"");
    r.append(s.as_str());
    r.append("\"");
    r
}

/// What the user is shown for response `resp`.
pub fn render_response(resp: &GetItemResponse) -> (sh: Shown)
    ensures
        sh@ == shown_of(resp@),
{
    let op = &resp.op;
    if text_is(op, "get") {
        let head = then_quoted(text("The value of key "), &resp.key);
        if resp.state {
            let mut r = head;
            r.append(" is ");
            Shown::Line(then_quoted(r, &resp.value))
        } else {
            let mut r = head;
            r.append(" does not exist");
            Shown::Line(r)
        }
    } else if text_is(op, "set") || text_is(op, "setex") {
        if !resp.state {
            let mut r = then_quoted(text("The value of key "), &resp.key);
            r.append(" is ");
            let mut r = then_quoted(r, &resp.value);
            r.append(", which already exists");
            Shown::Line(r)
        } else {
            Shown::Line(text("Successfully inserted"))
        }
    } else if text_is(op, "setslave") {
        Shown::Line(then_quoted(text("You can not set the slave, the master port is "), &resp.value))
    } else if text_is(op, "del") {
        if resp.state {
            Shown::Line(text("Successfully deleted"))
        } else {
            let mut r = then_quoted(text("The value of key "), &resp.key);
            r.append(" does not exist");
            Shown::Line(r)
        }
    } else if text_is(op, "ping") {
        if resp.key.as_str().unicode_len() == 0 {
            Shown::Line(text("pong"))
        } else {
            Shown::Line(then_quoted(text("pong "), &resp.key))
        }
    } else if text_is(op, "setportfail") || text_is(op, "getportfail") {
        Shown::Line(then_quoted(text("You are not using the proxy, the proxy port is "), &resp.value))
    } else if text_is(op, "shutdown") {
        if resp.state {
            Shown::Exit
        } else {
            Shown::Line(text("Error on shutdown"))
        }
    } else {
        Shown::Unexpected
    }
}

} // verus!
