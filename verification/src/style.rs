//! The terminal escape sequences used to highlight reports.
use vstd::prelude::*;

verus! {

/// A control sequence: `ESC [` followed by `code`.
pub open spec fn csi(code: Seq<char>) -> Seq<char> {
    seq!['\x1b', '['] + code
}

/// Sets the foreground colour to light cyan.
pub open spec fn light_cyan_seq() -> Seq<char> {
    csi(seq!['3', '8', ';', '5', ';', '1', '4', 'm'])
}

/// Turns bold text on.
pub open spec fn bold_seq() -> Seq<char> {
    csi(seq!['1', 'm'])
}

/// Turns italic text on.
pub open spec fn italic_seq() -> Seq<char> {
    csi(seq!['3', 'm'])
}

/// Resets every text attribute.
pub open spec fn reset_seq() -> Seq<char> {
    csi(seq!['m'])
}

/// termion's `color::LightCyan.fg_str()`: the sequence `ESC [ 38;5;14 m` that its source
/// spells out.
#[verifier::external_body]
pub(crate) fn light_cyan_fg() -> (r: &'static str)
    ensures
        r@ == light_cyan_seq(),
{
    termion::color::LightCyan.fg_str()
}

/// termion's `style::Bold` as text: the sequence `ESC [ 1 m` that its source spells out.
#[verifier::external_body]
pub(crate) fn bold() -> (r: String)
    ensures
        r@ == bold_seq(),
{
    termion::style::Bold.to_string()
}

/// termion's `style::Italic` as text: the sequence `ESC [ 3 m` that its source spells out.
#[verifier::external_body]
pub(crate) fn italic() -> (r: String)
    ensures
        r@ == italic_seq(),
{
    termion::style::Italic.to_string()
}

/// termion's `style::Reset` as text: the sequence `ESC [ m` that its source spells out.
#[verifier::external_body]
pub(crate) fn reset() -> (r: String)
    ensures
        r@ == reset_seq(),
{
    termion::style::Reset.to_string()
}

} // verus!
