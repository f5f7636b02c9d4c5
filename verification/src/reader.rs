//! What the contact-list chat does with each read from a connection.
use vstd::prelude::*;
use vstd::utf8::{valid_utf8, decode_utf8, encode_utf8};
use crate::text::{decode_text, trim, trimmed, is_white, lemma_trimmed_parts, lemma_trimmed_of_tight};

verus! {

/// The outcome of one read from a non-blocking connection.
#[derive(Debug)]
pub enum ReadOutcome {
    /// These bytes were read (none at the end of the stream).
    Data(Vec<u8>),
    /// Nothing was there to read yet.
    WouldBlock,
    /// The read failed.
    Failed,
}

/// What to do about a read.
#[derive(Debug)]
pub enum ReaderAction {
    /// Show this text from the peer.
    Show(String),
    /// Try again later.
    Wait,
    /// The peer is gone: forget it and stop reading.
    Disconnect,
}

/// A read outcome as the contracts see it.
pub enum ReadOutcomeView {
    Data(Seq<u8>),
    WouldBlock,
    Failed,
}

/// An action as the contracts see it.
pub enum ReaderActionView {
    Show(Seq<char>),
    Wait,
    Disconnect,
}

impl View for ReadOutcome {
    type V = ReadOutcomeView;

    open spec fn view(&self) -> ReadOutcomeView {
        match self {
            ReadOutcome::Data(b) => ReadOutcomeView::Data(b@),
            ReadOutcome::WouldBlock => ReadOutcomeView::WouldBlock,
            ReadOutcome::Failed => ReadOutcomeView::Failed,
        }
    }
}

impl View for ReaderAction {
    type V = ReaderActionView;

    open spec fn view(&self) -> ReaderActionView {
        match self {
            ReaderAction::Show(t) => ReaderActionView::Show(t@),
            ReaderAction::Wait => ReaderActionView::Wait,
            ReaderAction::Disconnect => ReaderActionView::Disconnect,
        }
    }
}

/// Whether a read holds bytes that are not UTF-8, which the chat cannot read (it gives
/// up on the connection).
pub open spec fn unreadable_outcome(o: ReadOutcomeView) -> bool {
    o matches ReadOutcomeView::Data(b) && b.len() > 0 && !valid_utf8(b)
}

/// The action for a readable read: the end of the stream or a failure disconnects,
/// nothing yet waits, and bytes are shown as their text, trimmed.
pub open spec fn reader_action(o: ReadOutcomeView) -> ReaderActionView {
    match o {
        ReadOutcomeView::Data(b) => if b.len() == 0 {
            ReaderActionView::Disconnect
        } else {
            ReaderActionView::Show(trimmed(decode_utf8(b)))
        },
        ReadOutcomeView::WouldBlock => ReaderActionView::Wait,
        ReadOutcomeView::Failed => ReaderActionView::Disconnect,
    }
}

/// A non-empty read is refused exactly when its bytes are not well-formed UTF-8.
pub proof fn lemma_unreadable_exactly_not_utf8(b: Seq<u8>)
    requires
        b.len() > 0,
    ensures
        unreadable_outcome(ReadOutcomeView::Data(b)) <==> !valid_utf8(b),
{
}

/// What is shown of a non-empty UTF-8 read is its text without the white space at its
/// two ends: the text is white space, then what is shown, then white space, and what is
/// shown is empty or starts and ends with characters that are not white space.
pub proof fn lemma_shown_text(b: Seq<u8>)
    requires
        b.len() > 0,
        valid_utf8(b),
    ensures
        ({
            let d = decode_utf8(b);
            reader_action(ReadOutcomeView::Data(b)) matches ReaderActionView::Show(t) && exists|
                i: int,
                j: int,
            |
                {
                    &&& 0 <= i <= j <= d.len()
                    &&& t == d.subrange(i, j)
                    &&& forall|k: int| 0 <= k < i ==> is_white(#[trigger] d[k])
                    &&& forall|k: int| j <= k < d.len() ==> is_white(#[trigger] d[k])
                    &&& i < j ==> !is_white(d[i]) && !is_white(d[j - 1])
                }
        }),
{
    let d = decode_utf8(b);
    let (i, j) = lemma_trimmed_parts(d);
    assert(trimmed(d) == d.subrange(i, j));
}

/// Any text sent as UTF-8 is readable, and it is shown as it was sent when it neither
/// starts nor ends with white space.
pub proof fn lemma_sent_text_shown(text: Seq<char>)
    requires
        text.len() > 0,
    ensures
        encode_utf8(text).len() > 0,
        !unreadable_outcome(ReadOutcomeView::Data(encode_utf8(text))),
        !is_white(text[0]) && !is_white(text.last()) ==> reader_action(
            ReadOutcomeView::Data(encode_utf8(text)),
        ) == ReaderActionView::Show(text),
{
    vstd::utf8::encode_utf8_valid_utf8(text);
    vstd::utf8::encode_utf8_decode_utf8(text);
    assert(encode_utf8(text) == vstd::utf8::encode_scalar(text[0] as u32) + encode_utf8(
        text.drop_first(),
    ));
    if !is_white(text[0]) && !is_white(text.last()) {
        lemma_trimmed_of_tight(text);
    }
}

/// Whether a read holds bytes that are not UTF-8 (`unreadable_outcome`).
pub fn is_unreadable_outcome(o: &ReadOutcome) -> (r: bool)
    ensures
        r == unreadable_outcome(o@),
{
    match o {
        ReadOutcome::Data(b) => b.len() > 0 && decode_text(b.as_slice()).is_none(),
        _ => false,
    }
}

/// The action for a readable read (`reader_action`).
pub fn reader_step(o: &ReadOutcome) -> (r: ReaderAction)
    requires
        !unreadable_outcome(o@),
    ensures
        r@ == reader_action(o@),
{
    match o {
        ReadOutcome::Data(b) => {
            if b.len() == 0 {
                ReaderAction::Disconnect
            } else {
                ReaderAction::Show(received_text(b.as_slice()))
            }
        },
        ReadOutcome::WouldBlock => ReaderAction::Wait,
        ReadOutcome::Failed => ReaderAction::Disconnect,
    }
}

/// What `String::from_utf8_lossy` reads from `bytes`.
pub uninterp spec fn utf8_lossy(bytes: Seq<u8>) -> Seq<char>;

/// The text `String::from_utf8_lossy` reads from `bytes`: the text they encode when they
/// are UTF-8 (as its documentation says); what it puts in place of bytes that are not is
/// left to the standard library and not stated.
#[verifier::external_body]
fn lossy_text(bytes: &[u8]) -> (r: String)
    ensures
        r@ == utf8_lossy(bytes@),
        valid_utf8(bytes@) ==> r@ == decode_utf8(bytes@),
{
    String::from_utf8_lossy(bytes).to_string()
}

/// The text of `chunk`, read leniently: replacement characters stand for bytes that are
/// not UTF-8.
pub fn text_lossy(chunk: &[u8]) -> (r: String)
    ensures
        r@ == utf8_lossy(chunk@),
        valid_utf8(chunk@) ==> r@ == decode_utf8(chunk@),
{
    lossy_text(chunk)
}

/// The text of `chunk`, which must be UTF-8, trimmed.
pub fn received_text(chunk: &[u8]) -> (r: String)
    requires
        valid_utf8(chunk@),
    ensures
        r@ == trimmed(decode_utf8(chunk@)),
{
    match decode_text(chunk) {
        Some(t) => trim(t),
        None => String::new(),
    }
}

/// The text of `chunk`, read leniently, trimmed.
pub fn received_text_lossy(chunk: &[u8]) -> (r: String)
    ensures
        r@ == trimmed(utf8_lossy(chunk@)),
        valid_utf8(chunk@) ==> r@ == trimmed(decode_utf8(chunk@)),
{
    let t = lossy_text(chunk);
    trim(t.as_str())
}

} // verus!
