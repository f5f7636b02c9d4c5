//! Verified logic of a small peer-to-peer chat.
pub mod command;
pub mod contact;
pub mod echo;
pub mod notice;
pub mod number;
pub mod protocol;
pub mod reader;
pub mod save;
pub mod shared;
pub mod text;
