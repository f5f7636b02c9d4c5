//! The wire protocol between two peers of the full chat, and the decisions a peer takes
//! on what it reads from a connection.
//!
//! Every message starts with one character that tells its kind:
//! `0` a registration (`0<name> <bind address>`), `1` a text (`1<text>`),
//! `2` a request for the contact list, and `3` a file (`3<file name> <length>\n` then the
//! bytes of the file).
use vstd::prelude::*;
use vstd::utf8::{valid_utf8, decode_utf8, encode_utf8};
use crate::text::{
    push_str, decode_text, trim, split_once_white, trimmed, split_white, is_white, has_no_white,
    white_run_end, white_run_start, lemma_trimmed_of_tight, lemma_split_white_join,
};
use crate::save::{file_name_of, path_file_name};
use crate::number::{decimal, decimal_text, parse_usize, usize_of, lemma_decimal, lemma_usize_of_decimal, is_digit};

verus! {

/// The registration a peer sends when a connection opens: `0`, its name, a space and
/// the address it listens on.
pub open spec fn registration_spec(name: Seq<char>, bind_address: Seq<char>) -> Seq<char> {
    "0"@ + name + " "@ + bind_address
}

/// A text message: `1` and the text.
pub open spec fn text_message_spec(text: Seq<char>) -> Seq<char> {
    "1"@ + text
}

/// The request for the contact list of the peer.
pub open spec fn lookup_request_spec() -> Seq<char> {
    "2"@
}

/// The header of a file: `3`, the file name, a space, its length in decimal and a line
/// break.
pub open spec fn file_header_spec(file_name: Seq<char>, length: nat) -> Seq<char> {
    "3"@ + file_name + " "@ + decimal(length) + "\n"@
}

/// The registration message (`registration_spec`).
pub fn registration_message(name: &str, bind_address: &str) -> (r: String)
    ensures
        r@ == registration_spec(name@, bind_address@),
{
    let mut r = String::new();
    push_str(&mut r, "0");
    push_str(&mut r, name);
    push_str(&mut r, " ");
    push_str(&mut r, bind_address);
    assert(r@ =~= registration_spec(name@, bind_address@));
    r
}

/// A text message (`text_message_spec`); a peer also answers a request for its contact
/// list with one, holding the list.
pub fn text_message(text: &str) -> (r: String)
    ensures
        r@ == text_message_spec(text@),
{
    let mut r = String::new();
    push_str(&mut r, "1");
    push_str(&mut r, text);
    r
}

/// The request for the contact list (`lookup_request_spec`).
pub fn lookup_request() -> (r: String)
    ensures
        r@ == lookup_request_spec(),
{
    let mut r = String::new();
    push_str(&mut r, "2");
    r
}

/// The header of a file (`file_header_spec`).
pub fn file_header(file_name: &str, length: u64) -> (r: String)
    ensures
        r@ == file_header_spec(file_name@, length as nat),
{
    let mut r = String::new();
    push_str(&mut r, "3");
    push_str(&mut r, file_name);
    push_str(&mut r, " ");
    let d = decimal_text(length);
    push_str(&mut r, d.as_str());
    push_str(&mut r, "\n");
    assert(r@ =~= file_header_spec(file_name@, length as nat));
    r
}

/// The name of the file at `path`, which must have one, and the header that announces
/// it with length `length`.
pub fn file_header_for(path: &str, length: u64) -> (r: (String, String))
    requires
        path_file_name(path@) is Some,
    ensures
        path_file_name(path@) == Some(r.0@),
        r.1@ == file_header_spec(r.0@, length as nat),
{
    let n = match file_name_of(path) {
        Some(n) => n,
        None => String::new(),
    };
    let h = file_header(n.as_str(), length);
    (n, h)
}

/// The name of the file at `path` and the header that announces it with length
/// `length`; `None` when the path has no file name.
pub fn try_file_header_for(path: &str, length: u64) -> (r: Option<(String, String)>)
    ensures
        match path_file_name(path@) {
            Some(n) => r matches Some((a, h)) && a@ == n && h@ == file_header_spec(n, length as nat),
            None => r is None,
        },
{
    if file_name_of(path).is_none() {
        return None;
    }
    Some(file_header_for(path, length))
}

/// How reading the first byte of a message failed.
#[derive(Clone, Copy, PartialEq, Eq, Structural, Debug)]
pub enum Failure {
    /// The connection was aborted.
    ConnectionAborted,
    /// The connection was reset by the peer.
    ConnectionReset,
    /// Anything else, the end of the stream among it.
    Other,
}

/// Whether a closed connection is announced, and with which prompt: an aborted
/// connection without a prompt, a reset one with the prompt `>`, any other failure not
/// at all.
pub fn close_announcement(f: Failure) -> (r: Option<Option<&'static str>>)
    ensures
        f == Failure::ConnectionAborted ==> r == Some(None::<&str>),
        f == Failure::ConnectionReset ==> (r matches Some(Some(p)) && p@ == ">"@),
        f == Failure::Other ==> r is None,
{
    match f {
        Failure::ConnectionAborted => Some(None),
        Failure::ConnectionReset => Some(Some(">")),
        Failure::Other => None,
    }
}

/// Where a peer is in reading from a connection.
#[derive(Debug)]
pub enum PeerState {
    /// Waiting for the first byte of a message.
    AwaitHead,
    /// Waiting for the body of a registration.
    AwaitRegistration,
    /// Waiting for the body of a text message.
    AwaitText,
    /// Waiting for the header line of a file.
    AwaitFileHeader,
    /// A file with this name and this size (as written) was announced; its size is to be
    /// read as a number.
    FileAnnounced(String, String),
    /// Waiting for the bytes of the named file, of the given length.
    AwaitFileBody(String, usize),
    /// Done with the connection.
    Closed,
}

/// What a peer read from a connection.
#[derive(Debug)]
pub enum PeerEvent {
    /// The first byte of a message.
    Head(u8),
    /// Reading the first byte failed.
    HeadFailed(Failure),
    /// One read of up to 1024 bytes, for a registration or a text.
    Chunk(Vec<u8>),
    /// That read failed.
    ChunkFailed,
    /// A line, with its line break, for a file header (empty at the end of the stream).
    Line(String),
    /// Going on after a file was announced, with nothing read.
    Proceed,
    /// The bytes of a file.
    Body(Vec<u8>),
}

/// What a peer does about what it read.
#[derive(Debug)]
pub enum PeerAction {
    /// Nothing; it goes on reading.
    Nothing,
    /// The peer names itself: its name and the text of the address it listens on, to be
    /// recorded when that text is a socket address.
    Register(String, String),
    /// The peer sent this text.
    Show(String),
    /// The peer asks for the contact list.
    ReplyContactList,
    /// The peer sends a file: its name and its size as written.
    AnnounceFile(String, String),
    /// The peer sent the named file with these contents.
    SaveFile(String, Vec<u8>),
    /// A read of a message body failed: the peer is forgotten.
    Drop,
    /// Reading the first byte failed: the peer is forgotten and the connection closed.
    Close(Failure),
}

/// A state as the contracts see it.
pub enum PeerStateView {
    AwaitHead,
    AwaitRegistration,
    AwaitText,
    AwaitFileHeader,
    FileAnnounced(Seq<char>, Seq<char>),
    AwaitFileBody(Seq<char>, usize),
    Closed,
}

/// An event as the contracts see it.
pub enum PeerEventView {
    Head(u8),
    HeadFailed(Failure),
    Chunk(Seq<u8>),
    ChunkFailed,
    Line(Seq<char>),
    Proceed,
    Body(Seq<u8>),
}

/// An action as the contracts see it.
pub enum PeerActionView {
    Nothing,
    Register(Seq<char>, Seq<char>),
    Show(Seq<char>),
    ReplyContactList,
    AnnounceFile(Seq<char>, Seq<char>),
    SaveFile(Seq<char>, Seq<u8>),
    Drop,
    Close(Failure),
}

impl View for PeerState {
    type V = PeerStateView;

    open spec fn view(&self) -> PeerStateView {
        match self {
            PeerState::AwaitHead => PeerStateView::AwaitHead,
            PeerState::AwaitRegistration => PeerStateView::AwaitRegistration,
            PeerState::AwaitText => PeerStateView::AwaitText,
            PeerState::AwaitFileHeader => PeerStateView::AwaitFileHeader,
            PeerState::FileAnnounced(n, s) => PeerStateView::FileAnnounced(n@, s@),
            PeerState::AwaitFileBody(n, l) => PeerStateView::AwaitFileBody(n@, *l),
            PeerState::Closed => PeerStateView::Closed,
        }
    }
}

impl View for PeerEvent {
    type V = PeerEventView;

    open spec fn view(&self) -> PeerEventView {
        match self {
            PeerEvent::Head(b) => PeerEventView::Head(*b),
            PeerEvent::HeadFailed(f) => PeerEventView::HeadFailed(*f),
            PeerEvent::Chunk(c) => PeerEventView::Chunk(c@),
            PeerEvent::ChunkFailed => PeerEventView::ChunkFailed,
            PeerEvent::Line(l) => PeerEventView::Line(l@),
            PeerEvent::Proceed => PeerEventView::Proceed,
            PeerEvent::Body(b) => PeerEventView::Body(b@),
        }
    }
}

impl View for PeerAction {
    type V = PeerActionView;

    open spec fn view(&self) -> PeerActionView {
        match self {
            PeerAction::Nothing => PeerActionView::Nothing,
            PeerAction::Register(n, a) => PeerActionView::Register(n@, a@),
            PeerAction::Show(t) => PeerActionView::Show(t@),
            PeerAction::ReplyContactList => PeerActionView::ReplyContactList,
            PeerAction::AnnounceFile(n, s) => PeerActionView::AnnounceFile(n@, s@),
            PeerAction::SaveFile(n, c) => PeerActionView::SaveFile(n@, c@),
            PeerAction::Drop => PeerActionView::Drop,
            PeerAction::Close(f) => PeerActionView::Close(*f),
        }
    }
}

/// Whether a peer in state `s` cannot make sense of `e`, and gives up on the connection:
/// a registration or text body that is not UTF-8, a file header line without white
/// space, or an announced file size that is not a number.
pub open spec fn unreadable(s: PeerStateView, e: PeerEventView) -> bool {
    match (s, e) {
        (PeerStateView::AwaitRegistration, PeerEventView::Chunk(c)) => !valid_utf8(c),
        (PeerStateView::AwaitText, PeerEventView::Chunk(c)) => !valid_utf8(c),
        (PeerStateView::AwaitFileHeader, PeerEventView::Line(l)) => l.len() > 0 && split_white(
            l,
        ) is None,
        (PeerStateView::FileAnnounced(_, size), PeerEventView::Proceed) => usize_of(size) is None,
        _ => false,
    }
}

/// The state a message starting with byte `b` leads to, and the action for it: `0`,
/// `1` and `3` wait for the rest of their message, `2` asks for the contact list, and
/// any other byte is skipped.
pub open spec fn on_head(b: u8) -> (PeerStateView, PeerActionView) {
    if b == 0x30 {
        (PeerStateView::AwaitRegistration, PeerActionView::Nothing)
    } else if b == 0x31 {
        (PeerStateView::AwaitText, PeerActionView::Nothing)
    } else if b == 0x32 {
        (PeerStateView::AwaitHead, PeerActionView::ReplyContactList)
    } else if b == 0x33 {
        (PeerStateView::AwaitFileHeader, PeerActionView::Nothing)
    } else {
        (PeerStateView::AwaitHead, PeerActionView::Nothing)
    }
}

/// A registration body (UTF-8): its text, trimmed, split at the first white space into
/// the name and the address text.
pub open spec fn on_registration(chunk: Seq<u8>) -> (PeerStateView, PeerActionView) {
    match split_white(trimmed(decode_utf8(chunk))) {
        Some((name, address)) => (PeerStateView::AwaitHead, PeerActionView::Register(name, address)),
        None => (PeerStateView::AwaitHead, PeerActionView::Nothing),
    }
}

/// A text body (UTF-8): the text it holds.
pub open spec fn on_text(chunk: Seq<u8>) -> (PeerStateView, PeerActionView) {
    (PeerStateView::AwaitHead, PeerActionView::Show(decode_utf8(chunk)))
}

/// A file header line: skipped when empty; else split at its first white space into the
/// file name and the size, both trimmed, and announced.
pub open spec fn on_file_header(line: Seq<char>) -> (PeerStateView, PeerActionView) {
    if line.len() == 0 {
        (PeerStateView::AwaitHead, PeerActionView::Nothing)
    } else {
        match split_white(line) {
            Some((a, b)) => (
                PeerStateView::FileAnnounced(trimmed(a), trimmed(b)),
                PeerActionView::AnnounceFile(trimmed(a), trimmed(b)),
            ),
            None => (PeerStateView::Closed, PeerActionView::Nothing),
        }
    }
}

/// After an announcement, the body of the file follows, of the announced size.
pub open spec fn on_announced(name: Seq<char>, size: Seq<char>) -> (PeerStateView, PeerActionView) {
    match usize_of(size) {
        Some(n) => (PeerStateView::AwaitFileBody(name, n), PeerActionView::Nothing),
        None => (PeerStateView::Closed, PeerActionView::Nothing),
    }
}

/// The next state and the action of a peer in state `s` that read `e`; where `e` is
/// `unreadable` in `s` the connection ends there.
pub open spec fn peer_step(s: PeerStateView, e: PeerEventView) -> (PeerStateView, PeerActionView) {
    if unreadable(s, e) {
        (PeerStateView::Closed, PeerActionView::Nothing)
    } else {
        match (s, e) {
            (PeerStateView::AwaitHead, PeerEventView::Head(b)) => on_head(b),
            (PeerStateView::AwaitHead, PeerEventView::HeadFailed(f)) => (
                PeerStateView::Closed,
                PeerActionView::Close(f),
            ),
            (PeerStateView::AwaitRegistration, PeerEventView::Chunk(c)) => on_registration(c),
            (PeerStateView::AwaitRegistration, PeerEventView::ChunkFailed) => (
                PeerStateView::Closed,
                PeerActionView::Drop,
            ),
            (PeerStateView::AwaitText, PeerEventView::Chunk(c)) => on_text(c),
            (PeerStateView::AwaitText, PeerEventView::ChunkFailed) => (
                PeerStateView::AwaitHead,
                PeerActionView::Drop,
            ),
            (PeerStateView::AwaitFileHeader, PeerEventView::Line(l)) => on_file_header(l),
            (PeerStateView::FileAnnounced(n, size), PeerEventView::Proceed) => on_announced(
                n,
                size,
            ),
            (PeerStateView::AwaitFileBody(n, _), PeerEventView::Body(b)) => (
                PeerStateView::AwaitHead,
                PeerActionView::SaveFile(n, b),
            ),
            (s, _) => (s, PeerActionView::Nothing),
        }
    }
}

/// The state after a run of events from `s`, and the actions taken on the way.
pub open spec fn peer_run(s: PeerStateView, es: Seq<PeerEventView>) -> (
    PeerStateView,
    Seq<PeerActionView>,
)
    decreases es.len(),
{
    if es.len() == 0 {
        (s, Seq::empty())
    } else {
        let (s1, a) = peer_step(s, es[0]);
        let (sn, acts) = peer_run(s1, es.drop_first());
        (sn, seq![a] + acts)
    }
}

/// The UTF-8 encoding of a text that starts with an ASCII character `c` is the byte of
/// `c` followed by the encoding of the rest.
proof fn lemma_encode_ascii_head(c: char, x: Seq<char>)
    requires
        (c as u32) < 0x80,
    ensures
        encode_utf8(seq![c] + x) == seq![c as u8] + encode_utf8(x),
{
    let s = seq![c] + x;
    assert(s[0] == c);
    assert(s.drop_first() =~= x);
    let v = c as u32;
    assert((v & 0x7f) == v) by (bit_vector)
        requires
            v < 0x80,
    ;
}

/// The bytes of a message, split into its first byte and the rest.
proof fn lemma_message_bytes(kind: char, rest: Seq<char>)
    requires
        (kind as u32) < 0x80,
    ensures
        encode_utf8(seq![kind] + rest).len() > 0,
        encode_utf8(seq![kind] + rest)[0] == kind as u8,
        encode_utf8(seq![kind] + rest).skip(1) == encode_utf8(rest),
        valid_utf8(encode_utf8(rest)),
        decode_utf8(encode_utf8(rest)) == rest,
{
    lemma_encode_ascii_head(kind, rest);
    assert((seq![kind as u8] + encode_utf8(rest)).skip(1) =~= encode_utf8(rest));
    vstd::utf8::encode_utf8_valid_utf8(rest);
    vstd::utf8::encode_utf8_decode_utf8(rest);
}

/// A registration is read back as it was sent: its first byte leads to the wait for a
/// registration body, and the rest of its bytes give the name and the address, when the
/// name is not empty and holds no white space and the address does not end in white space.
pub proof fn lemma_registration_round_trip(name: Seq<char>, address: Seq<char>)
    requires
        name.len() > 0,
        has_no_white(name),
        address.len() > 0,
        !is_white(address.last()),
    ensures
        ({
            let bytes = encode_utf8(registration_spec(name, address));
            &&& bytes.len() > 0
            &&& peer_step(PeerStateView::AwaitHead, PeerEventView::Head(bytes[0])) == (
                PeerStateView::AwaitRegistration,
                PeerActionView::Nothing,
            )
            &&& !unreadable(PeerStateView::AwaitRegistration, PeerEventView::Chunk(bytes.skip(1)))
            &&& peer_step(PeerStateView::AwaitRegistration, PeerEventView::Chunk(bytes.skip(1)))
                == (PeerStateView::AwaitHead, PeerActionView::Register(name, address))
        }),
{
    reveal_strlit("0");
    reveal_strlit(" ");
    let body = name + seq![' '] + address;
    assert(registration_spec(name, address) =~= seq!['0'] + body);
    lemma_message_bytes('0', body);
    assert(!is_white(name[0]));
    assert(body[0] == name[0]);
    assert(body.last() == address.last());
    lemma_trimmed_of_tight(body);
    lemma_split_white_join(name, ' ', address);
}

/// A connection that brings one registration in one read and then ends is read as: the
/// registration, recorded once, then the peer forgotten and the connection closed.
pub proof fn lemma_registration_run(name: Seq<char>, address: Seq<char>, f: Failure)
    requires
        name.len() > 0,
        has_no_white(name),
        address.len() > 0,
        !is_white(address.last()),
    ensures
        ({
            let bytes = encode_utf8(registration_spec(name, address));
            peer_run(
                PeerStateView::AwaitHead,
                seq![
                    PeerEventView::Head(bytes[0]),
                    PeerEventView::Chunk(bytes.skip(1)),
                    PeerEventView::HeadFailed(f),
                ],
            ) == (
                PeerStateView::Closed,
                seq![
                    PeerActionView::Nothing,
                    PeerActionView::Register(name, address),
                    PeerActionView::Close(f),
                ],
            )
        }),
{
    lemma_registration_round_trip(name, address);
    let bytes = encode_utf8(registration_spec(name, address));
    let es = seq![
        PeerEventView::Head(bytes[0]),
        PeerEventView::Chunk(bytes.skip(1)),
        PeerEventView::HeadFailed(f),
    ];
    assert(es.drop_first() =~= seq![PeerEventView::Chunk(bytes.skip(1)), PeerEventView::HeadFailed(f)]);
    assert(es.drop_first().drop_first() =~= seq![PeerEventView::HeadFailed(f)]);
    assert(es.drop_first().drop_first().drop_first() =~= Seq::<PeerEventView>::empty());
    reveal_with_fuel(peer_run, 4);
    let r = peer_run(PeerStateView::AwaitHead, es);
    assert(r.1 =~= seq![
        PeerActionView::Nothing,
        PeerActionView::Register(name, address),
        PeerActionView::Close(f),
    ]);
}

/// Bytes that start no message are skipped: a run that begins with such first bytes
/// ends as the run without them does, with nothing done for each of them.
pub proof fn lemma_skipped_prefix(x: Seq<u8>, es: Seq<PeerEventView>)
    requires
        forall|i: int| 0 <= i < x.len() ==> !(0x30 <= #[trigger] x[i] <= 0x33),
    ensures
        peer_run(PeerStateView::AwaitHead, x.map_values(|b: u8| PeerEventView::Head(b)) + es) == (
            peer_run(PeerStateView::AwaitHead, es).0,
            Seq::new(x.len(), |i: int| PeerActionView::Nothing) + peer_run(
                PeerStateView::AwaitHead,
                es,
            ).1,
        ),
    decreases x.len(),
{
    let hs = x.map_values(|b: u8| PeerEventView::Head(b));
    if x.len() == 0 {
        assert(hs + es =~= es);
        assert(Seq::new(0, |i: int| PeerActionView::Nothing) + peer_run(PeerStateView::AwaitHead, es).1
            =~= peer_run(PeerStateView::AwaitHead, es).1);
    } else {
        let rest = x.drop_first();
        lemma_skipped_prefix(rest, es);
        let all = hs + es;
        assert(all[0] == PeerEventView::Head(x[0]));
        assert(all.drop_first() =~= rest.map_values(|b: u8| PeerEventView::Head(b)) + es);
        assert(!(0x30 <= x[0] <= 0x33));
        assert(Seq::new(x.len(), |i: int| PeerActionView::Nothing) =~= seq![PeerActionView::Nothing]
            + Seq::new(rest.len(), |i: int| PeerActionView::Nothing));
    }
}

/// A text message is read back as it was sent.
pub proof fn lemma_text_round_trip(text: Seq<char>)
    ensures
        ({
            let bytes = encode_utf8(text_message_spec(text));
            &&& bytes.len() > 0
            &&& peer_step(PeerStateView::AwaitHead, PeerEventView::Head(bytes[0])) == (
                PeerStateView::AwaitText,
                PeerActionView::Nothing,
            )
            &&& !unreadable(PeerStateView::AwaitText, PeerEventView::Chunk(bytes.skip(1)))
            &&& peer_step(PeerStateView::AwaitText, PeerEventView::Chunk(bytes.skip(1))) == (
                PeerStateView::AwaitHead,
                PeerActionView::Show(text),
            )
        }),
{
    reveal_strlit("1");
    assert(text_message_spec(text) =~= seq!['1'] + text);
    lemma_message_bytes('1', text);
}

/// A request for the contact list is answered with the contact list.
pub proof fn lemma_lookup_round_trip()
    ensures
        ({
            let bytes = encode_utf8(lookup_request_spec());
            &&& bytes.len() == 1
            &&& peer_step(PeerStateView::AwaitHead, PeerEventView::Head(bytes[0])) == (
                PeerStateView::AwaitHead,
                PeerActionView::ReplyContactList,
            )
        }),
{
    reveal_strlit("2");
    assert(lookup_request_spec() =~= seq!['2'] + Seq::<char>::empty());
    lemma_message_bytes('2', Seq::<char>::empty());
    assert(encode_utf8(Seq::<char>::empty()) =~= Seq::<u8>::empty());
}

/// A decimal number followed by a line break, trimmed, is the number.
proof fn lemma_trim_decimal_line(n: nat)
    ensures
        trimmed(decimal(n) + seq!['\n']) == decimal(n),
{
    lemma_decimal(n);
    let d = decimal(n);
    let s = d + seq!['\n'];
    assert(s[0] == d[0]);
    assert(is_digit(d[0]));
    assert(is_digit(d[d.len() - 1]));
    assert(s[s.len() - 2] == d[d.len() - 1]);
    assert(white_run_end(s, 0) == 0);
    assert(white_run_start(s, s.len() - 1) == s.len() - 1);
    assert(white_run_start(s, s.len() as int) == s.len() - 1);
    assert(s.subrange(0, s.len() - 1) =~= d);
}

/// A file header is read back as it was sent: its first byte leads to the wait for the
/// header line, that line (the rest of the header) announces the file name and its size
/// as written, and going on leads to the wait for a body of that length, when the name
/// holds no white space.
pub proof fn lemma_file_header_round_trip(file_name: Seq<char>, length: usize)
    requires
        has_no_white(file_name),
    ensures
        ({
            let header = file_header_spec(file_name, length as nat);
            let bytes = encode_utf8(header);
            let size = decimal(length as nat);
            &&& bytes.len() > 0
            &&& peer_step(PeerStateView::AwaitHead, PeerEventView::Head(bytes[0])) == (
                PeerStateView::AwaitFileHeader,
                PeerActionView::Nothing,
            )
            &&& !unreadable(PeerStateView::AwaitFileHeader, PeerEventView::Line(header.drop_first()))
            &&& peer_step(PeerStateView::AwaitFileHeader, PeerEventView::Line(header.drop_first()))
                == (
                PeerStateView::FileAnnounced(file_name, size),
                PeerActionView::AnnounceFile(file_name, size),
            )
            &&& !unreadable(PeerStateView::FileAnnounced(file_name, size), PeerEventView::Proceed)
            &&& peer_step(PeerStateView::FileAnnounced(file_name, size), PeerEventView::Proceed)
                == (PeerStateView::AwaitFileBody(file_name, length), PeerActionView::Nothing)
        }),
{
    reveal_strlit("3");
    reveal_strlit(" ");
    reveal_strlit("\n");
    let d = decimal(length as nat);
    let rest = d + seq!['\n'];
    let line = file_name + seq![' '] + rest;
    let header = file_header_spec(file_name, length as nat);
    assert(header =~= seq!['3'] + line);
    assert(header.drop_first() =~= line);
    assert(line.len() > 0);
    lemma_message_bytes('3', line);
    lemma_split_white_join(file_name, ' ', rest);
    lemma_trimmed_of_tight(file_name);
    lemma_trim_decimal_line(length as nat);
    lemma_usize_of_decimal(length);
}

/// The bytes of a file are handed over to be saved under the name its header gave.
pub proof fn lemma_file_body_saved(file_name: Seq<char>, length: usize, body: Seq<u8>)
    ensures
        peer_step(PeerStateView::AwaitFileBody(file_name, length), PeerEventView::Body(body)) == (
            PeerStateView::AwaitHead,
            PeerActionView::SaveFile(file_name, body),
        ),
{
}

/// Whether a peer in state `state` cannot make sense of `event` (`unreadable`).
pub fn is_unreadable(state: &PeerState, event: &PeerEvent) -> (r: bool)
    ensures
        r == unreadable(state@, event@),
{
    match (state, event) {
        (PeerState::AwaitRegistration, PeerEvent::Chunk(c)) => decode_text(c.as_slice()).is_none(),
        (PeerState::AwaitText, PeerEvent::Chunk(c)) => decode_text(c.as_slice()).is_none(),
        (PeerState::AwaitFileHeader, PeerEvent::Line(l)) => !l.as_str().is_empty()
            && split_once_white(l.as_str()).is_none(),
        (PeerState::FileAnnounced(_, size), PeerEvent::Proceed) => parse_usize(size.as_str()).is_none(),
        _ => false,
    }
}

/// The decision on the first byte of a message (`on_head`).
pub fn head_step(b: u8) -> (r: (PeerState, PeerAction))
    ensures
        (r.0@, r.1@) == on_head(b),
{
    if b == 0x30 {
        (PeerState::AwaitRegistration, PeerAction::Nothing)
    } else if b == 0x31 {
        (PeerState::AwaitText, PeerAction::Nothing)
    } else if b == 0x32 {
        (PeerState::AwaitHead, PeerAction::ReplyContactList)
    } else if b == 0x33 {
        (PeerState::AwaitFileHeader, PeerAction::Nothing)
    } else {
        (PeerState::AwaitHead, PeerAction::Nothing)
    }
}

/// The decision on a registration body, which must be UTF-8 (`on_registration`).
pub fn registration_step(chunk: &[u8]) -> (r: (PeerState, PeerAction))
    requires
        valid_utf8(chunk@),
    ensures
        (r.0@, r.1@) == on_registration(chunk@),
{
    let t = match decode_text(chunk) {
        Some(t) => t,
        None => "",
    };
    let body = trim(t);
    match split_once_white(body.as_str()) {
        Some((name, address)) => (PeerState::AwaitHead, PeerAction::Register(name, address)),
        None => (PeerState::AwaitHead, PeerAction::Nothing),
    }
}

/// The decision on a text body, which must be UTF-8 (`on_text`).
pub fn text_step(chunk: &[u8]) -> (r: (PeerState, PeerAction))
    requires
        valid_utf8(chunk@),
    ensures
        (r.0@, r.1@) == on_text(chunk@),
{
    let mut s = String::new();
    match decode_text(chunk) {
        Some(t) => push_str(&mut s, t),
        None => {},
    }
    (PeerState::AwaitHead, PeerAction::Show(s))
}

/// The decision on a file header line, which must be empty or hold white space
/// (`on_file_header`).
pub fn file_header_step(line: &str) -> (r: (PeerState, PeerAction))
    requires
        line@.len() == 0 || split_white(line@) is Some,
    ensures
        (r.0@, r.1@) == on_file_header(line@),
{
    if line.is_empty() {
        return (PeerState::AwaitHead, PeerAction::Nothing);
    }
    match split_once_white(line) {
        None => (PeerState::Closed, PeerAction::Nothing),
        Some((a, b)) => {
            let name = trim(a.as_str());
            let size = trim(b.as_str());
            (
                PeerState::FileAnnounced(copy_text(&name), copy_text(&size)),
                PeerAction::AnnounceFile(name, size),
            )
        },
    }
}

/// The decision after an announcement, whose size must be a number (`on_announced`).
pub fn announced_step(name: String, size: &str) -> (r: (PeerState, PeerAction))
    requires
        usize_of(size@) is Some,
    ensures
        (r.0@, r.1@) == on_announced(name@, size@),
{
    match parse_usize(size) {
        Some(n) => (PeerState::AwaitFileBody(name, n), PeerAction::Nothing),
        None => (PeerState::Closed, PeerAction::Nothing),
    }
}

/// A copy of `s`.
fn copy_text(s: &String) -> (r: String)
    ensures
        r@ == s@,
{
    let mut r = String::new();
    push_str(&mut r, s.as_str());
    r
}

/// The next state and the action of a peer in state `state` that read `event`
/// (`peer_step`); the peer must be able to make sense of it (`is_unreadable` tells).
pub fn peer_step_exec(state: PeerState, event: PeerEvent) -> (r: (PeerState, PeerAction))
    requires
        !unreadable(state@, event@),
    ensures
        (r.0@, r.1@) == peer_step(state@, event@),
{
    match (state, event) {
        (PeerState::AwaitHead, PeerEvent::Head(b)) => head_step(b),
        (PeerState::AwaitHead, PeerEvent::HeadFailed(f)) => (PeerState::Closed, PeerAction::Close(f)),
        (PeerState::AwaitRegistration, PeerEvent::Chunk(c)) => registration_step(c.as_slice()),
        (PeerState::AwaitRegistration, PeerEvent::ChunkFailed) => (PeerState::Closed, PeerAction::Drop),
        (PeerState::AwaitText, PeerEvent::Chunk(c)) => text_step(c.as_slice()),
        (PeerState::AwaitText, PeerEvent::ChunkFailed) => (PeerState::AwaitHead, PeerAction::Drop),
        (PeerState::AwaitFileHeader, PeerEvent::Line(l)) => file_header_step(l.as_str()),
        (PeerState::FileAnnounced(n, size), PeerEvent::Proceed) => announced_step(n, size.as_str()),
        (PeerState::AwaitFileBody(n, _), PeerEvent::Body(b)) => (PeerState::AwaitHead, PeerAction::SaveFile(n, b)),
        (s, _) => (s, PeerAction::Nothing),
    }
}

} // verus!
