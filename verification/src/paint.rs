//! Colour for the terminal, as the `colored` crate writes it.

use vstd::prelude::*;

verus! {

/// The character that opens a terminal control sequence.
pub open spec fn escape() -> char {
    '\u{1b}'
}

/// The parameter that selects a green foreground.
pub open spec fn green_code() -> Seq<char> {
    seq!['3', '2']
}

/// The parameter that selects a cyan foreground.
pub open spec fn cyan_code() -> Seq<char> {
    seq!['3', '6']
}

/// The sequence that switches every attribute back to the terminal's own.
pub open spec fn reset() -> Seq<char> {
    seq![escape(), '[', '0', 'm']
}

/// `s` between the sequence that switches the foreground to `code` and the
/// reset.
pub open spec fn paint(code: Seq<char>, s: Seq<char>) -> Seq<char> {
    seq![escape(), '['] + code + seq!['m'] + s + reset()
}

/// `t` is one of the forms in which `s` comes back when it is shown in the
/// colour `code`: painted where colour is switched on, untouched where it is
/// off, and followed by a lone reset where the switch is turned off while the
/// text is being written.
pub open spec fn in_colour(code: Seq<char>, s: Seq<char>, t: Seq<char>) -> bool {
    t == s || t == paint(code, s) || t == s + reset()
}

/// The reset sequence stands somewhere in `s`.
pub open spec fn holds_reset(s: Seq<char>) -> bool {
    exists|i: int| 0 <= i && i + 4 <= s.len() && #[trigger] s.subrange(i, i + 4) == reset()
}

/// `t` shows `s` in the colour `code`. Of a text that itself holds a reset
/// sequence nothing is said.
pub open spec fn shows(code: Seq<char>, s: Seq<char>, t: Seq<char>) -> bool {
    !holds_reset(s) ==> in_colour(code, s, t)
}

/// A text without an escape character holds no reset sequence.
pub proof fn lemma_plain_holds_no_reset(s: Seq<char>)
    requires
        !s.contains(escape()),
    ensures
        !holds_reset(s),
{
    if holds_reset(s) {
        let i = choose|i: int|
            0 <= i && i + 4 <= s.len() && #[trigger] s.subrange(i, i + 4) == reset();
        assert(s.subrange(i, i + 4)[0] == escape());
        assert(s[i] == escape());
    }
}

/// Colour adds no line break: what shows a text, in green or in cyan, holds
/// one only if the text does.
pub proof fn lemma_colour_adds_no_line_break(code: Seq<char>, s: Seq<char>, t: Seq<char>)
    requires
        in_colour(code, s, t),
        code == green_code() || code == cyan_code(),
        !s.contains('\n'),
    ensures
        !t.contains('\n'),
{
    if t.contains('\n') {
        let i = choose|i: int| 0 <= i < t.len() && t[i] == '\n';
        if t == paint(code, s) {
            if 5 <= i < 5 + s.len() {
                assert(t[i] == s[i - 5]);
            }
        } else if t == s + reset() {
            if i < s.len() {
                assert(t[i] == s[i]);
            }
        }
        assert(false);
    }
}

/// `colored::Colorize::green`, written out by the `Display` of the
/// `ColoredString` it returns. Whether `colored` paints hangs on the
/// environment, the terminal and its override switch, which it asks once
/// before it writes and once more for the opening sequence, so that any of
/// the three forms of `in_colour` may come back. After a reset sequence
/// inside the text it writes the opening sequence again, which is why texts
/// that hold one are left out.
#[verifier::external_body]
pub(crate) fn green(s: &str) -> (r: String)
    ensures
        shows(green_code(), s@, r@),
{
    colored::Colorize::green(s).to_string()
}

/// `colored::Colorize::cyan`, read as `green` is.
#[verifier::external_body]
pub(crate) fn cyan(s: &str) -> (r: String)
    ensures
        shows(cyan_code(), s@, r@),
{
    colored::Colorize::cyan(s).to_string()
}

} // verus!
