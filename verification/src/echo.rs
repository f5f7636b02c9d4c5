//! The reply of the echo server to what a client sent.
use vstd::prelude::*;
use vstd::utf8::{valid_utf8, decode_utf8};
use crate::text::{push_str, decode_text};

verus! {

/// The reply to `chunk`, which must be UTF-8 text: `Server:` followed by the text.
pub fn server_reply(chunk: &[u8]) -> (r: String)
    requires
        valid_utf8(chunk@),
    ensures
        r@ == "Server:"@ + decode_utf8(chunk@),
{
    let mut s = String::new();
    push_str(&mut s, "Server:");
    match decode_text(chunk) {
        Some(t) => push_str(&mut s, t),
        None => {},
    }
    s
}

} // verus!
