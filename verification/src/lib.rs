//! Teletext (Mode 7) page rendering for a telnet-style viewer: decoding of
//! TTI page files, translation of escaped teletext lines for BBC Micro and
//! UTF-8/ANSI terminals, link navigation and the per-connection session logic.
pub mod address;
pub mod decoder;
pub mod lines;
pub mod links;
pub mod number;
pub mod page;
pub mod session;
pub mod terminal;
pub mod text;
