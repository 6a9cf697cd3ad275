//! Terminal styling, modeled exactly: every styling call either returns the
//! text unchanged (styling globally disabled) or adds the style's ANSI
//! codes — a prefix and the reset suffix for a colored style, and the bare
//! reset suffix for the force-resetting style, which carries no codes of its
//! own.

use vstd::prelude::*;
use yansi::Paint;

verus! {

/// The ANSI reset suffix that ends a styled span.
pub open spec fn reset_suffix() -> Seq<char> {
    seq!['\u{1b}', '[', '0', 'm']
}

/// `s` wrapped in an ANSI style prefix holding `code` and the reset suffix.
pub open spec fn ansi_wrapped(code: Seq<char>, s: Seq<char>) -> Seq<char> {
    seq!['\u{1b}', '['] + code + seq!['m'] + s + reset_suffix()
}

/// The style code for red foreground text.
pub open spec fn red_code() -> Seq<char> {
    seq!['3', '1']
}

/// The style code for green foreground text.
pub open spec fn green_code() -> Seq<char> {
    seq!['3', '2']
}

/// The style code for bold, bright-cyan foreground text.
pub open spec fn bold_bright_cyan_code() -> Seq<char> {
    seq!['1', ';', '9', '6']
}

/// What a colored styling call may return: the text unchanged when styling
/// is disabled, or the text wrapped in the style's codes when it is enabled.
pub open spec fn styled_or_plain(r: Seq<char>, code: Seq<char>, s: Seq<char>) -> bool {
    r == s || r == ansi_wrapped(code, s)
}

/// What a force-resetting styling call may return: the text unchanged when
/// styling is disabled, or the text followed by the bare reset suffix when
/// it is enabled — the style sets no color or attribute, so no prefix is
/// written, only the forced reset.
pub open spec fn reset_or_plain(r: Seq<char>, s: Seq<char>) -> bool {
    r == s || r == s + reset_suffix()
}

/// Relies on yansi's `Paint::red` and `Painted::to_string`: when styling is
/// globally enabled the text is wrapped in the red style prefix and the
/// reset suffix, otherwise it is returned unchanged.
#[verifier::external_body]
pub(crate) fn paint_red(s: &str) -> (r: String)
    ensures
        styled_or_plain(r@, red_code(), s@),
{
    s.red().to_string()
}

/// Relies on yansi's `Paint::green` and `Painted::to_string`: when styling
/// is globally enabled the text is wrapped in the green style prefix and the
/// reset suffix, otherwise it is returned unchanged.
#[verifier::external_body]
pub(crate) fn paint_green(s: &str) -> (r: String)
    ensures
        styled_or_plain(r@, green_code(), s@),
{
    s.green().to_string()
}

/// Relies on yansi's `Paint::bright_cyan`, `Painted::bold` and
/// `Painted::to_string`: when styling is globally enabled the text is
/// wrapped in the bold bright-cyan style prefix and the reset suffix,
/// otherwise it is returned unchanged.
#[verifier::external_body]
pub(crate) fn paint_bright_cyan_bold(s: &str) -> (r: String)
    ensures
        styled_or_plain(r@, bold_bright_cyan_code(), s@),
{
    s.bright_cyan().bold().to_string()
}

/// Relies on yansi's `Paint::resetting` and `Painted::to_string`: a
/// resetting-only style compares equal to the default style (quirks are not
/// part of style equality), so no prefix is written; the resetting quirk
/// forces the reset suffix. When styling is globally enabled the text is
/// followed by the bare reset suffix, otherwise it is returned unchanged.
#[verifier::external_body]
pub(crate) fn paint_resetting(s: &str) -> (r: String)
    ensures
        reset_or_plain(r@, s@),
{
    s.resetting().to_string()
}

} // verus!
