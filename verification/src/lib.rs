//! A small engine for format strings.
//!
//! A formatter holds a value for each key that was registered with it; a key
//! is one character. It writes a format string into a line, in which
//!
//! - `%%` writes one `%`;
//! - `%k` writes the value of the key `k`, or nothing if `k` has none;
//! - `%5k` writes it at the right of a field of five characters, and `%-5k`
//!   at the left of one; a longer value is written whole;
//! - `%?k?yes&no?` writes `yes` if `k` has a value that is not empty and
//!   `no` otherwise; the `&` and the second branch may be left out, and a
//!   branch may hold directives and conditionals of its own;
//! - every other character, and a `%` that starts none of these, stands for
//!   itself.
//!
//! Every format string is written, whatever it holds. A total width, given
//! with the format string, fills the line up with spaces at its end and
//! never cuts it.
//!
//! [`grammar`] says how a format string is read and [`render`] what it
//! writes; [`formatter`] holds the formatter, whose `do_format` is proved to
//! return exactly that; [`laws`] holds what follows for every format
//! string.

pub mod bounds;
pub mod bridge;
pub mod cut;
pub mod formatter;
pub mod grammar;
pub mod laws;
pub mod registry;
pub mod render;
pub mod scanner;
pub mod suffix;
pub mod text;

pub use formatter::FmtStrFormatter;
pub use registry::Registry;
