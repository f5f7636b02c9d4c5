//! What the chat prints for a notice and a prompt: the notice on a cleared line in the
//! colour of its level, then the prompt.
use vstd::prelude::*;
use crate::text::push_str;
use crate::number::{decimal, decimal_text};

verus! {

/// Who a notice comes from, which decides its colour.
#[derive(Clone, Copy, PartialEq, Eq, Structural, Debug)]
pub enum Level {
    System,
    User,
    Info,
}

/// The terminal escape that selects the colour of `level`: dim for the system,
/// green for users, yellow for information.
pub open spec fn color_of(level: Level) -> Seq<char> {
    match level {
        Level::System => "\x1B[2m"@,
        Level::User => "\x1B[32m"@,
        Level::Info => "\x1B[33m"@,
    }
}

/// The text printed for `notice` and `prompt`: when there is a notice, the escapes that
/// move to the first column and clear the line, the colour of `level`, the notice, the
/// escape that resets the colour and a line break; then, when there is a prompt, the
/// prompt and one space.
pub open spec fn notice_and_prompt_spec(
    notice: Option<Seq<char>>,
    prompt: Option<Seq<char>>,
    level: Level,
) -> Seq<char> {
    let head = match notice {
        Some(n) => "\x1B[1G\x1B[2K"@ + color_of(level) + n + "\x1B[0m\n"@,
        None => Seq::empty(),
    };
    let tail = match prompt {
        Some(p) => p + " "@,
        None => Seq::empty(),
    };
    head + tail
}

/// The view of an optional text.
pub open spec fn opt_view(s: Option<&str>) -> Option<Seq<char>> {
    match s {
        Some(t) => Some(t@),
        None => None,
    }
}

/// The three levels have three different colours: dim, green and yellow.
pub proof fn lemma_level_colours()
    ensures
        color_of(Level::System) == "\x1B[2m"@,
        color_of(Level::User) == "\x1B[32m"@,
        color_of(Level::Info) == "\x1B[33m"@,
        color_of(Level::System) != color_of(Level::User),
        color_of(Level::System) != color_of(Level::Info),
        color_of(Level::User) != color_of(Level::Info),
{
    reveal_strlit("\x1B[2m");
    reveal_strlit("\x1B[32m");
    reveal_strlit("\x1B[33m");
    assert("\x1B[2m"@.len() != "\x1B[32m"@.len());
    assert("\x1B[2m"@.len() != "\x1B[33m"@.len());
    assert("\x1B[32m"@[3] != "\x1B[33m"@[3]);
}

/// A prompt alone is printed followed by one space; a notice alone is printed on a
/// cleared first column, in its colour, with the colour reset and a line break after it;
/// with both, the notice comes first.
pub proof fn lemma_notice_and_prompt_layout(n: Seq<char>, p: Seq<char>, level: Level)
    ensures
        notice_and_prompt_spec(None, None, level) == Seq::<char>::empty(),
        notice_and_prompt_spec(None, Some(p), level) == p + seq![' '],
        notice_and_prompt_spec(Some(n), None, level) == "\x1B[1G\x1B[2K"@ + color_of(level) + n
            + seq!['\x1B', '[', '0', 'm', '\n'],
        notice_and_prompt_spec(Some(n), Some(p), level) == notice_and_prompt_spec(
            Some(n),
            None,
            level,
        ) + notice_and_prompt_spec(None, Some(p), level),
{
    reveal_strlit(" ");
    reveal_strlit("\x1B[0m\n");
    assert(notice_and_prompt_spec(None, None, level) =~= Seq::<char>::empty());
    assert(notice_and_prompt_spec(None, Some(p), level) =~= p + seq![' ']);
    assert(notice_and_prompt_spec(Some(n), None, level) =~= "\x1B[1G\x1B[2K"@ + color_of(level) + n
        + seq!['\x1B', '[', '0', 'm', '\n']);
    assert(notice_and_prompt_spec(Some(n), Some(p), level) =~= notice_and_prompt_spec(
        Some(n),
        None,
        level,
    ) + notice_and_prompt_spec(None, Some(p), level));
}

/// The colour escape of `level`.
pub fn level_color(level: Level) -> (r: &'static str)
    ensures
        r@ == color_of(level),
{
    match level {
        Level::System => "\x1B[2m",
        Level::User => "\x1B[32m",
        Level::Info => "\x1B[33m",
    }
}

/// The exact text that `notice_and_prompt` writes to the terminal.
pub fn notice_and_prompt_text(notice: Option<&str>, prompt: Option<&str>, level: Level) -> (r:
    String)
    ensures
        r@ == notice_and_prompt_spec(opt_view(notice), opt_view(prompt), level),
{
    let mut r = String::new();
    if let Some(n) = notice {
        push_str(&mut r, "\x1B[1G\x1B[2K");
        push_str(&mut r, level_color(level));
        push_str(&mut r, n);
        push_str(&mut r, "\x1B[0m\n");
    }
    if let Some(p) = prompt {
        push_str(&mut r, p);
        push_str(&mut r, " ");
    }
    assert(r@ =~= notice_and_prompt_spec(opt_view(notice), opt_view(prompt), level));
    r
}

/// The notices of the full chat.
#[derive(Debug)]
pub enum ChatNotice {
    /// An input line was too long.
    TooLong,
    /// `connect` without an address.
    ConnectUsage,
    /// `message` without a known target or content.
    MessageUsage,
    /// `lookup` without a known target.
    LookupUsage,
    /// `file` without a known target or path.
    FileUsage,
    /// Listening on the address.
    Listening(String),
    /// A connection with the address opened.
    Connected(String),
    /// The peer at the address registered the port it listens on and its name.
    Registered(String, u16, String),
    /// Reading from the peer at the address failed.
    Disconnected(String),
    /// The connection with the peer at the address was aborted or reset.
    Left(String),
    /// A peer (by name or address) said something.
    Said(String, String),
    /// A peer (by name or address) sends a file with a name and a size.
    SendingFile(String, String, String),
    /// A received file was saved at the path.
    FileSaved(String),
    /// A file was sent.
    FileSent(String),
    /// There is no file at the path.
    NoSuchFile(String),
}

/// The text of a notice.
pub open spec fn chat_notice_spec(n: ChatNotice) -> Seq<char> {
    match n {
        ChatNotice::TooLong => "[system]Input message is too long!"@,
        ChatNotice::ConnectUsage => "[system]Please run [connect ip:port]"@,
        ChatNotice::MessageUsage => "[system]Please run [message ip:port|remote_name content]"@,
        ChatNotice::LookupUsage => "[system]Please run [lookup ip:port|remote_name]"@,
        ChatNotice::FileUsage => "[system]Please run [file ip:port|remote_name path]"@,
        ChatNotice::Listening(a) => "[system]Listening on "@ + a@,
        ChatNotice::Connected(a) => "[system]"@ + a@ + " connected"@,
        ChatNotice::Registered(a, port, name) => "[system]"@ + a@ + "(bind_port:"@ + decimal(
            port as nat,
        ) + ") as name "@ + name@,
        ChatNotice::Disconnected(a) => "[system]"@ + a@ + " disconnected"@,
        ChatNotice::Left(a) => "[system]"@ + a@ + " disconnected."@,
        ChatNotice::Said(who, text) => "["@ + who@ + "]: "@ + text@,
        ChatNotice::SendingFile(who, file, size) => "[system]"@ + who@ + " is sending file: "@
            + file@ + ", size: "@ + size@,
        ChatNotice::FileSaved(path) => "[system]File is saved in "@ + path@,
        ChatNotice::FileSent(file) => "[system]Finished sending "@ + file@,
        ChatNotice::NoSuchFile(path) => "[system]"@ + path@ + " does not exists"@,
    }
}

/// The level of a notice: what peers say is the users', the rest the system's.
pub open spec fn chat_notice_level_spec(n: ChatNotice) -> Level {
    match n {
        ChatNotice::Said(_, _) => Level::User,
        _ => Level::System,
    }
}

/// A notice that a connection opened reads `[system]`, the address and ` connected`;
/// it differs from the notices that the peer at that address disconnected or left.
pub proof fn lemma_connection_notices(a: String)
    ensures
        chat_notice_spec(ChatNotice::Connected(a)) == "[system]"@ + a@ + " connected"@,
        chat_notice_spec(ChatNotice::Disconnected(a)) == "[system]"@ + a@ + " disconnected"@,
        chat_notice_spec(ChatNotice::Connected(a)) != chat_notice_spec(ChatNotice::Disconnected(a)),
        chat_notice_spec(ChatNotice::Connected(a)) != chat_notice_spec(ChatNotice::Left(a)),
        chat_notice_spec(ChatNotice::Disconnected(a)) != chat_notice_spec(ChatNotice::Left(a)),
{
    reveal_strlit("[system]");
    reveal_strlit(" connected");
    reveal_strlit(" disconnected");
    reveal_strlit(" disconnected.");
    let p = "[system]"@ + a@;
    let c = p + " connected"@;
    let d = p + " disconnected"@;
    let l = p + " disconnected."@;
    assert(c[p.len() as int + 1] == 'c');
    assert(d[p.len() as int + 1] == 'd');
    assert(d.len() != l.len());
    assert(c.len() != l.len());
}

/// What the other notices say: a peer's words after its name or address in brackets;
/// a registration with the registered port in decimal; the file being sent with its
/// size; where a file was saved; which file was sent; which path has no file; where the
/// chat listens. All but a peer's words are the system's.
pub proof fn lemma_notice_texts(a: String, b: String, c: String, port: u16)
    ensures
        chat_notice_spec(ChatNotice::Said(a, b)) == seq!['['] + a@ + seq![']', ':', ' '] + b@,
        chat_notice_level_spec(ChatNotice::Said(a, b)) == Level::User,
        chat_notice_spec(ChatNotice::Registered(a, port, b)) == "[system]"@ + a@
            + "(bind_port:"@ + decimal(port as nat) + ") as name "@ + b@,
        chat_notice_level_spec(ChatNotice::Registered(a, port, b)) == Level::System,
        chat_notice_spec(ChatNotice::SendingFile(a, b, c)) == "[system]"@ + a@
            + " is sending file: "@ + b@ + ", size: "@ + c@,
        chat_notice_spec(ChatNotice::FileSaved(a)) == "[system]File is saved in "@ + a@,
        chat_notice_spec(ChatNotice::FileSent(a)) == "[system]Finished sending "@ + a@,
        chat_notice_spec(ChatNotice::NoSuchFile(a)) == "[system]"@ + a@ + " does not exists"@,
        chat_notice_spec(ChatNotice::Listening(a)) == "[system]Listening on "@ + a@,
        chat_notice_spec(ChatNotice::Left(a)) == "[system]"@ + a@ + " disconnected."@,
{
    reveal_strlit("[");
    reveal_strlit("]: ");
    assert(chat_notice_spec(ChatNotice::Said(a, b)) =~= seq!['['] + a@ + seq![']', ':', ' '] + b@);
}

/// The text of a notice (`chat_notice_spec`).
pub fn chat_notice_text(n: &ChatNotice) -> (r: String)
    ensures
        r@ == chat_notice_spec(*n),
{
    let mut r = String::new();
    match n {
        ChatNotice::TooLong => push_str(&mut r, "[system]Input message is too long!"),
        ChatNotice::ConnectUsage => push_str(&mut r, "[system]Please run [connect ip:port]"),
        ChatNotice::MessageUsage => push_str(
            &mut r,
            "[system]Please run [message ip:port|remote_name content]",
        ),
        ChatNotice::LookupUsage => push_str(&mut r, "[system]Please run [lookup ip:port|remote_name]"),
        ChatNotice::FileUsage => push_str(&mut r, "[system]Please run [file ip:port|remote_name path]"),
        ChatNotice::Listening(a) => {
            push_str(&mut r, "[system]Listening on ");
            push_str(&mut r, a.as_str());
        },
        ChatNotice::Connected(a) => {
            push_str(&mut r, "[system]");
            push_str(&mut r, a.as_str());
            push_str(&mut r, " connected");
        },
        ChatNotice::Registered(a, port, name) => {
            push_str(&mut r, "[system]");
            push_str(&mut r, a.as_str());
            push_str(&mut r, "(bind_port:");
            let p = decimal_text(*port as u64);
            push_str(&mut r, p.as_str());
            push_str(&mut r, ") as name ");
            push_str(&mut r, name.as_str());
        },
        ChatNotice::Disconnected(a) => {
            push_str(&mut r, "[system]");
            push_str(&mut r, a.as_str());
            push_str(&mut r, " disconnected");
        },
        ChatNotice::Left(a) => {
            push_str(&mut r, "[system]");
            push_str(&mut r, a.as_str());
            push_str(&mut r, " disconnected.");
        },
        ChatNotice::Said(who, text) => {
            push_str(&mut r, "[");
            push_str(&mut r, who.as_str());
            push_str(&mut r, "]: ");
            push_str(&mut r, text.as_str());
        },
        ChatNotice::SendingFile(who, file, size) => {
            push_str(&mut r, "[system]");
            push_str(&mut r, who.as_str());
            push_str(&mut r, " is sending file: ");
            push_str(&mut r, file.as_str());
            push_str(&mut r, ", size: ");
            push_str(&mut r, size.as_str());
        },
        ChatNotice::FileSaved(path) => {
            push_str(&mut r, "[system]File is saved in ");
            push_str(&mut r, path.as_str());
        },
        ChatNotice::FileSent(file) => {
            push_str(&mut r, "[system]Finished sending ");
            push_str(&mut r, file.as_str());
        },
        ChatNotice::NoSuchFile(path) => {
            push_str(&mut r, "[system]");
            push_str(&mut r, path.as_str());
            push_str(&mut r, " does not exists");
        },
    }
    assert(r@ =~= chat_notice_spec(*n));
    r
}

/// The level of a notice (`chat_notice_level_spec`).
pub fn chat_notice_level(n: &ChatNotice) -> (r: Level)
    ensures
        r == chat_notice_level_spec(*n),
{
    match n {
        ChatNotice::Said(_, _) => Level::User,
        _ => Level::System,
    }
}

} // verus!
