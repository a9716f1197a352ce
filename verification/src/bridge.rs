//! The formatter as C++ callers reach it: keys, values and format strings
//! arrive as C++ strings, which may hold any bytes.

use crate::formatter::{with_key, FmtStrFormatter};
use crate::render::render;
use cxx::CxxString;
use vstd::prelude::*;

verus! {

/// `cxx::CxxString`, a C++ `std::string` as Rust sees it: always behind a
/// reference, and known here by its text alone.
#[verifier::external_type_specification]
#[verifier::external_body]
pub struct ExCxxString(CxxString);

/// The text that a C++ string holds: its bytes read as UTF-8, with U+FFFD
/// in place of each sequence of bytes that is not valid UTF-8.
pub uninterp spec fn lossy_text(s: &CxxString) -> Seq<char>;

/// `CxxString::to_string_lossy` reads the bytes of the C++ string as UTF-8
/// and puts U+FFFD in place of what is not valid; the text it gives is what
/// the contracts call `lossy_text`. Nothing more is claimed of it.
#[verifier::external_body]
fn to_string_lossy(s: &CxxString) -> (r: String)
    ensures
        r@ == lossy_text(s),
{
    s.to_string_lossy().into_owned()
}

/// Registers the text of `value` for the first character of the text of
/// `key`. The characters of `key` after the first are not looked at, and
/// with an empty `key` nothing is registered.
pub fn register_fmt(fmt: &mut FmtStrFormatter, key: &CxxString, value: &CxxString)
    ensures
        final(fmt)@ == with_key(old(fmt)@, lossy_text(key), lossy_text(value)),
{
    let key = to_string_lossy(key);
    let value = to_string_lossy(value);
    fmt.register_key(key.as_str(), value);
}

/// Writes the text of `format` as a format string with the values
/// registered in `fmt`, in a line of at least `width` characters.
pub fn do_format(fmt: &FmtStrFormatter, format: &CxxString, width: u32) -> (r: String)
    ensures
        r@ == render(fmt@, lossy_text(format), width as nat),
{
    let format = to_string_lossy(format);
    fmt.do_format(format.as_str(), width)
}

} // verus!
