//! The commands a user types at the chat prompt, read from one input line.
use vstd::prelude::*;
use vstd::utf8::encode_utf8;
use crate::text::{
    split_white, trimmed, without_white, split_once_white, trim, remove_white, is_white, has_no_white,
    lemma_split_white_join, lemma_trimmed_of_tight, lemma_without_white_trimmed,
    lemma_without_white_of_no_white,
};

verus! {

/// The longest input line, in bytes, that the chat acts on.
pub const MAX_INPUT_BYTES: usize = 1024;

/// A command read from an input line.
#[derive(Debug)]
pub enum Command {
    /// Nothing was read.
    Skip,
    /// The line is longer than `MAX_INPUT_BYTES` bytes.
    TooLong,
    /// `connect`, with the address text that follows, white space removed.
    Connect(String),
    /// `quit`.
    Quit,
    /// `message`, with the target (an address or a name, free of white space) and the
    /// content.
    Message(String, String),
    /// `list`.
    List,
    /// `lookup`, with the target, white space removed.
    Lookup(String),
    /// `file`, with the target (free of white space) and the path.
    File(String, String),
    /// Anything else, for a program that sends such lines to its peer as they are.
    Send,
    /// Anything else, for a program that ignores it.
    Nothing,
}

/// A command with its texts as character sequences.
pub enum CommandView {
    Skip,
    TooLong,
    Connect(Seq<char>),
    Quit,
    Message(Seq<char>, Seq<char>),
    List,
    Lookup(Seq<char>),
    File(Seq<char>, Seq<char>),
    Send,
    Nothing,
}

impl View for Command {
    type V = CommandView;

    open spec fn view(&self) -> CommandView {
        match self {
            Command::Skip => CommandView::Skip,
            Command::TooLong => CommandView::TooLong,
            Command::Connect(a) => CommandView::Connect(a@),
            Command::Quit => CommandView::Quit,
            Command::Message(t, c) => CommandView::Message(t@, c@),
            Command::List => CommandView::List,
            Command::Lookup(t) => CommandView::Lookup(t@),
            Command::File(t, p) => CommandView::File(t@, p@),
            Command::Send => CommandView::Send,
            Command::Nothing => CommandView::Nothing,
        }
    }
}

/// The command word of `s` and its argument: `s` split at its first white space, both
/// parts trimmed; without white space, `s` trimmed and no argument.
pub open spec fn words_of(s: Seq<char>) -> (Seq<char>, Seq<char>) {
    match split_white(s) {
        Some((a, b)) => (trimmed(a), trimmed(b)),
        None => (trimmed(s), Seq::empty()),
    }
}

/// A target and the rest of an argument: split at the first white space, both trimmed.
pub open spec fn target_and_rest(arg: Seq<char>) -> Option<(Seq<char>, Seq<char>)> {
    match split_white(arg) {
        Some((t, r)) => Some((trimmed(t), trimmed(r))),
        None => None,
    }
}

/// The command of the full chat for the line `line` of `byte_len` bytes: nothing read,
/// too long, or the command word of the trimmed line with its argument.
pub open spec fn chat_command(line: Seq<char>, byte_len: nat) -> CommandView {
    if byte_len == 0 {
        CommandView::Skip
    } else if byte_len > MAX_INPUT_BYTES {
        CommandView::TooLong
    } else {
        let (w, arg) = words_of(trimmed(line));
        if w == "connect"@ {
            CommandView::Connect(without_white(arg))
        } else if w == "quit"@ {
            CommandView::Quit
        } else if w == "message"@ {
            match target_and_rest(arg) {
                Some((t, c)) => CommandView::Message(t, c),
                None => CommandView::Nothing,
            }
        } else if w == "list"@ {
            CommandView::List
        } else if w == "lookup"@ {
            CommandView::Lookup(without_white(arg))
        } else if w == "file"@ {
            match target_and_rest(arg) {
                Some((t, p)) => CommandView::File(t, p),
                None => CommandView::Nothing,
            }
        } else {
            CommandView::Nothing
        }
    }
}

/// The command of the contact-list chat (connect, quit, message, list) for `line`.
pub open spec fn contact_command(line: Seq<char>, byte_len: nat) -> CommandView {
    if byte_len == 0 {
        CommandView::Skip
    } else {
        let (w, arg) = words_of(trimmed(line));
        if w == "connect"@ {
            CommandView::Connect(without_white(arg))
        } else if w == "quit"@ {
            CommandView::Quit
        } else if w == "message"@ {
            match target_and_rest(arg) {
                Some((t, c)) => CommandView::Message(t, c),
                None => CommandView::Nothing,
            }
        } else if w == "list"@ {
            CommandView::List
        } else {
            CommandView::Nothing
        }
    }
}

/// The command of the single-peer chat (connect, quit, or a line to send) for `line`;
/// its command word is read from the line as it is, untrimmed.
pub open spec fn peer_command(line: Seq<char>, byte_len: nat) -> CommandView {
    if byte_len == 0 {
        CommandView::Skip
    } else {
        let (w, arg) = words_of(line);
        if w == "connect"@ {
            CommandView::Connect(without_white(arg))
        } else if w == "quit"@ {
            CommandView::Quit
        } else {
            CommandView::Send
        }
    }
}

/// A command word without white space, one white space character and an argument read
/// as that word and the trimmed argument.
proof fn lemma_words_of_join(word: Seq<char>, w: char, a: Seq<char>)
    requires
        word.len() > 0,
        has_no_white(word),
        is_white(w),
    ensures
        words_of(word + seq![w] + a) == (word, trimmed(a)),
{
    lemma_split_white_join(word, w, a);
    lemma_trimmed_of_tight(word);
}

/// The command words hold no white space, and they differ from each other.
proof fn lemma_command_words()
    ensures
        has_no_white("connect"@),
        has_no_white("message"@),
        has_no_white("lookup"@),
        has_no_white("file"@),
        has_no_white("quit"@),
        has_no_white("list"@),
        "connect"@.len() > 0,
        "message"@.len() > 0,
        "lookup"@.len() > 0,
        "file"@.len() > 0,
        "quit"@.len() > 0,
        "list"@.len() > 0,
        "connect"@ != "quit"@,
        "message"@ != "connect"@,
        "message"@ != "quit"@,
        "list"@ != "connect"@,
        "list"@ != "quit"@,
        "list"@ != "message"@,
        "lookup"@ != "connect"@,
        "lookup"@ != "quit"@,
        "lookup"@ != "message"@,
        "lookup"@ != "list"@,
        "file"@ != "connect"@,
        "file"@ != "quit"@,
        "file"@ != "message"@,
        "file"@ != "list"@,
        "file"@ != "lookup"@,
{
    reveal_strlit("connect");
    reveal_strlit("message");
    reveal_strlit("quit");
    reveal_strlit("list");
    reveal_strlit("lookup");
    reveal_strlit("file");
    assert("connect"@.len() != "quit"@.len());
    assert("message"@[0] != "connect"@[0]);
    assert("message"@.len() != "quit"@.len());
    assert("list"@.len() != "connect"@.len());
    assert("list"@[0] != "quit"@[0]);
    assert("list"@.len() != "message"@.len());
    assert("lookup"@.len() != "connect"@.len());
    assert("lookup"@.len() != "quit"@.len());
    assert("lookup"@.len() != "message"@.len());
    assert("lookup"@.len() != "list"@.len());
    assert("file"@.len() != "connect"@.len());
    assert("file"@[0] != "quit"@[0]);
    assert("file"@.len() != "message"@.len());
    assert("file"@[0] != "list"@[0]);
    assert("file"@.len() != "lookup"@.len());
}

/// The address of `connect` in the contact-list chat is its argument with the white space
/// removed, and only that: when the trimmed line is `connect`, one white space character
/// and an argument `a`, the command connects to `a` without white space (to `a` itself
/// when it holds none).
pub proof fn lemma_contact_connect(line: Seq<char>, w: char, a: Seq<char>, byte_len: nat)
    requires
        byte_len > 0,
        is_white(w),
        trimmed(line) == "connect"@ + seq![w] + a,
    ensures
        contact_command(line, byte_len) == CommandView::Connect(without_white(a)),
        has_no_white(a) ==> contact_command(line, byte_len) == CommandView::Connect(a),
{
    lemma_command_words();
    lemma_words_of_join("connect"@, w, a);
    lemma_without_white_trimmed(a);
    if has_no_white(a) {
        lemma_without_white_of_no_white(a);
    }
}

/// The same for the full chat, for lines it does not refuse as too long.
pub proof fn lemma_chat_connect(line: Seq<char>, w: char, a: Seq<char>, byte_len: nat)
    requires
        0 < byte_len <= MAX_INPUT_BYTES,
        is_white(w),
        trimmed(line) == "connect"@ + seq![w] + a,
    ensures
        chat_command(line, byte_len) == CommandView::Connect(without_white(a)),
        has_no_white(a) ==> chat_command(line, byte_len) == CommandView::Connect(a),
{
    lemma_command_words();
    lemma_words_of_join("connect"@, w, a);
    lemma_without_white_trimmed(a);
    if has_no_white(a) {
        lemma_without_white_of_no_white(a);
    }
}

/// The same for the single-peer chat, which reads the line untrimmed.
pub proof fn lemma_peer_connect(line: Seq<char>, w: char, a: Seq<char>, byte_len: nat)
    requires
        byte_len > 0,
        is_white(w),
        line == "connect"@ + seq![w] + a,
    ensures
        peer_command(line, byte_len) == CommandView::Connect(without_white(a)),
        has_no_white(a) ==> peer_command(line, byte_len) == CommandView::Connect(a),
{
    lemma_command_words();
    lemma_words_of_join("connect"@, w, a);
    lemma_without_white_trimmed(a);
    if has_no_white(a) {
        lemma_without_white_of_no_white(a);
    }
}

/// A message is sent to its target with its content: when the trimmed line is
/// `message`, white space, a target without white space, white space and a content that
/// neither starts nor ends with white space, the command is that target and that content.
proof fn lemma_message_words(line: Seq<char>, w: char, t: Seq<char>, v: char, c: Seq<char>)
    requires
        is_white(w),
        is_white(v),
        t.len() > 0,
        has_no_white(t),
        c.len() > 0,
        !is_white(c[0]),
        !is_white(c.last()),
        trimmed(line) == "message"@ + seq![w] + (t + seq![v] + c),
    ensures
        words_of(trimmed(line)) == ("message"@, t + seq![v] + c),
        target_and_rest(t + seq![v] + c) == Some((t, c)),
{
    lemma_command_words();
    let arg = t + seq![v] + c;
    lemma_words_of_join("message"@, w, arg);
    assert(arg[0] == t[0]);
    assert(!is_white(t[0]));
    assert(arg.last() == c.last());
    lemma_trimmed_of_tight(arg);
    lemma_split_white_join(t, v, c);
    lemma_trimmed_of_tight(t);
    lemma_trimmed_of_tight(c);
}

/// In the contact-list chat, `message <target> <content>` sends that content to that
/// target.
pub proof fn lemma_contact_message(
    line: Seq<char>,
    w: char,
    t: Seq<char>,
    v: char,
    c: Seq<char>,
    byte_len: nat,
)
    requires
        byte_len > 0,
        is_white(w),
        is_white(v),
        t.len() > 0,
        has_no_white(t),
        c.len() > 0,
        !is_white(c[0]),
        !is_white(c.last()),
        trimmed(line) == "message"@ + seq![w] + (t + seq![v] + c),
    ensures
        contact_command(line, byte_len) == CommandView::Message(t, c),
{
    lemma_command_words();
    lemma_message_words(line, w, t, v, c);
}

/// In the full chat, `message <target> <content>` sends that content to that target.
pub proof fn lemma_chat_message(
    line: Seq<char>,
    w: char,
    t: Seq<char>,
    v: char,
    c: Seq<char>,
    byte_len: nat,
)
    requires
        0 < byte_len <= MAX_INPUT_BYTES,
        is_white(w),
        is_white(v),
        t.len() > 0,
        has_no_white(t),
        c.len() > 0,
        !is_white(c[0]),
        !is_white(c.last()),
        trimmed(line) == "message"@ + seq![w] + (t + seq![v] + c),
    ensures
        chat_command(line, byte_len) == CommandView::Message(t, c),
{
    lemma_command_words();
    lemma_message_words(line, w, t, v, c);
}

/// In the full chat, `lookup` asks the peer its argument names, white space removed.
pub proof fn lemma_chat_lookup(line: Seq<char>, w: char, a: Seq<char>, byte_len: nat)
    requires
        0 < byte_len <= MAX_INPUT_BYTES,
        is_white(w),
        trimmed(line) == "lookup"@ + seq![w] + a,
    ensures
        chat_command(line, byte_len) == CommandView::Lookup(without_white(a)),
        has_no_white(a) ==> chat_command(line, byte_len) == CommandView::Lookup(a),
{
    lemma_command_words();
    lemma_words_of_join("lookup"@, w, a);
    lemma_without_white_trimmed(a);
    if has_no_white(a) {
        lemma_without_white_of_no_white(a);
    }
}

/// In the full chat, `file <target> <path>` sends that path to that target.
pub proof fn lemma_chat_file(
    line: Seq<char>,
    w: char,
    t: Seq<char>,
    v: char,
    p: Seq<char>,
    byte_len: nat,
)
    requires
        0 < byte_len <= MAX_INPUT_BYTES,
        is_white(w),
        is_white(v),
        t.len() > 0,
        has_no_white(t),
        p.len() > 0,
        !is_white(p[0]),
        !is_white(p.last()),
        trimmed(line) == "file"@ + seq![w] + (t + seq![v] + p),
    ensures
        chat_command(line, byte_len) == CommandView::File(t, p),
{
    lemma_command_words();
    let arg = t + seq![v] + p;
    lemma_words_of_join("file"@, w, arg);
    assert(arg[0] == t[0]);
    assert(!is_white(t[0]));
    assert(arg.last() == p.last());
    lemma_trimmed_of_tight(arg);
    lemma_split_white_join(t, v, p);
    lemma_trimmed_of_tight(t);
    lemma_trimmed_of_tight(p);
}

/// The bare words: `quit` quits and `list` lists, in both chats that know them; a line
/// of no bytes is skipped and, in the full chat, one of more than `MAX_INPUT_BYTES` bytes
/// is refused.
pub proof fn lemma_bare_commands(line: Seq<char>, byte_len: nat)
    ensures
        byte_len == 0 ==> chat_command(line, byte_len) == CommandView::Skip && contact_command(
            line,
            byte_len,
        ) == CommandView::Skip && peer_command(line, byte_len) == CommandView::Skip,
        byte_len > MAX_INPUT_BYTES ==> chat_command(line, byte_len) == CommandView::TooLong,
        0 < byte_len <= MAX_INPUT_BYTES && trimmed(line) == "quit"@ ==> chat_command(
            line,
            byte_len,
        ) == CommandView::Quit,
        0 < byte_len <= MAX_INPUT_BYTES && trimmed(line) == "list"@ ==> chat_command(
            line,
            byte_len,
        ) == CommandView::List,
        0 < byte_len && trimmed(line) == "quit"@ ==> contact_command(line, byte_len)
            == CommandView::Quit,
        0 < byte_len && trimmed(line) == "list"@ ==> contact_command(line, byte_len)
            == CommandView::List,
{
    lemma_command_words();
    if trimmed(line) == "quit"@ {
        crate::text::lemma_split_white_none_of("quit"@);
        lemma_trimmed_of_tight("quit"@);
    }
    if trimmed(line) == "list"@ {
        crate::text::lemma_split_white_none_of("list"@);
        lemma_trimmed_of_tight("list"@);
    }
}

/// The command word of `s` and its argument (`words_of`).
pub fn split_words(s: &str) -> (r: (String, String))
    ensures
        (r.0@, r.1@) == words_of(s@),
{
    match split_once_white(s) {
        Some((a, b)) => (trim(a.as_str()), trim(b.as_str())),
        None => (trim(s), String::new()),
    }
}

/// A target and the rest of `arg` (`target_and_rest`).
pub fn split_target(arg: &str) -> (r: Option<(String, String)>)
    ensures
        match target_and_rest(arg@) {
            Some((t, x)) => r matches Some((a, b)) && a@ == t && b@ == x,
            None => r is None,
        },
{
    match split_once_white(arg) {
        Some((t, x)) => Some((trim(t.as_str()), trim(x.as_str()))),
        None => None,
    }
}

/// Whether `s` is the text `t`.
pub fn is_word(s: &String, t: &str) -> (r: bool)
    ensures
        r == (s@ == t@),
{
    let w = t.to_owned();
    *s == w
}

/// Reads the command of the full chat from an input line (`chat_command`).
pub fn parse_chat_command(line: &str) -> (r: Command)
    requires
        encode_utf8(line@).len() <= usize::MAX,
    ensures
        r@ == chat_command(line@, encode_utf8(line@).len()),
{
    let n = line.len();
    if n == 0 {
        return Command::Skip;
    }
    if n > MAX_INPUT_BYTES {
        return Command::TooLong;
    }
    let t = trim(line);
    let (w, arg) = split_words(t.as_str());
    if is_word(&w, "connect") {
        Command::Connect(remove_white(arg.as_str()))
    } else if is_word(&w, "quit") {
        Command::Quit
    } else if is_word(&w, "message") {
        match split_target(arg.as_str()) {
            Some((target, content)) => Command::Message(target, content),
            None => Command::Nothing,
        }
    } else if is_word(&w, "list") {
        Command::List
    } else if is_word(&w, "lookup") {
        Command::Lookup(remove_white(arg.as_str()))
    } else if is_word(&w, "file") {
        match split_target(arg.as_str()) {
            Some((target, path)) => Command::File(target, path),
            None => Command::Nothing,
        }
    } else {
        Command::Nothing
    }
}

/// Reads the command of the contact-list chat from an input line (`contact_command`).
pub fn parse_contact_command(line: &str) -> (r: Command)
    requires
        encode_utf8(line@).len() <= usize::MAX,
    ensures
        r@ == contact_command(line@, encode_utf8(line@).len()),
{
    if line.len() == 0 {
        return Command::Skip;
    }
    let t = trim(line);
    let (w, arg) = split_words(t.as_str());
    if is_word(&w, "connect") {
        Command::Connect(remove_white(arg.as_str()))
    } else if is_word(&w, "quit") {
        Command::Quit
    } else if is_word(&w, "message") {
        match split_target(arg.as_str()) {
            Some((target, content)) => Command::Message(target, content),
            None => Command::Nothing,
        }
    } else if is_word(&w, "list") {
        Command::List
    } else {
        Command::Nothing
    }
}

/// Reads the command of the single-peer chat from an input line (`peer_command`).
pub fn parse_peer_command(line: &str) -> (r: Command)
    requires
        encode_utf8(line@).len() <= usize::MAX,
    ensures
        r@ == peer_command(line@, encode_utf8(line@).len()),
{
    if line.len() == 0 {
        return Command::Skip;
    }
    let (w, arg) = split_words(line);
    if is_word(&w, "connect") {
        Command::Connect(remove_white(arg.as_str()))
    } else if is_word(&w, "quit") {
        Command::Quit
    } else {
        Command::Send
    }
}

/// Whether the line asks to connect: it is `connect`, once trimmed.
pub fn is_connect_request(line: &str) -> (r: bool)
    ensures
        r == (trimmed(line@) == "connect"@),
{
    let t = trim(line);
    is_word(&t, "connect")
}

} // verus!
