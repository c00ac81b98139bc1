use colored::Colorize;
use vstd::prelude::*;

verus! {

/// The escape character that starts an ANSI control sequence.
pub open spec fn esc() -> char {
    '\u{1b}'
}

/// The ANSI reset sequence that ends a colorized span.
pub open spec fn ansi_reset() -> Seq<char> {
    seq![esc(), '[', '0', 'm']
}

/// The ANSI sequence that opens a span with the given SGR codes.
pub open spec fn ansi_open(codes: Seq<char>) -> Seq<char> {
    seq![esc(), '['] + codes + seq!['m']
}

/// `s` wrapped in the given SGR codes.
pub open spec fn ansi_wrapped(codes: Seq<char>, s: Seq<char>) -> Seq<char> {
    ansi_open(codes) + s + ansi_reset()
}

/// Whether the text contains the ANSI reset sequence.
pub open spec fn has_reset(s: Seq<char>) -> bool {
    exists|i: int| 0 <= i && i + 4 <= s.len() && #[trigger] s.subrange(i, i + 4) == ansi_reset()
}

/// Whether the text contains the escape character at all.
pub open spec fn has_esc(s: Seq<char>) -> bool {
    exists|i: int| 0 <= i < s.len() && s[i] == esc()
}

/// What a colorizing call returns for input `s` under SGR `codes`: the text
/// unchanged when coloring is off, else the text wrapped in the codes. When
/// `s` itself contains a reset sequence the wrapped text re-opens the codes
/// after each reset, so only the wrapping shape is stated for it.
pub open spec fn painted(codes: Seq<char>, s: Seq<char>, r: Seq<char>) -> bool {
    &&& (r == s || (exists|inner: Seq<char>| r == ansi_wrapped(codes, inner)))
    &&& (!has_reset(s) ==> (r == s || r == ansi_wrapped(codes, s)))
}

/// Text without the escape character contains no reset sequence.
pub proof fn lemma_no_esc_no_reset(s: Seq<char>)
    requires
        !has_esc(s),
    ensures
        !has_reset(s),
{
    assert forall|i: int| !(0 <= i && i + 4 <= s.len() && #[trigger] s.subrange(i, i + 4)
        == ansi_reset()) by {
        if 0 <= i && i + 4 <= s.len() && s.subrange(i, i + 4) == ansi_reset() {
            assert(s.subrange(i, i + 4)[0] == esc());
            assert(s[i] == esc());
        }
    }
}

/// The concatenation of two texts without the escape character has none.
pub proof fn lemma_no_esc_concat(a: Seq<char>, b: Seq<char>)
    requires
        !has_esc(a),
        !has_esc(b),
    ensures
        !has_esc(a + b),
{
    assert forall|i: int| 0 <= i < (a + b).len() implies (a + b)[i] != esc() by {
        if i < a.len() {
            assert((a + b)[i] == a[i]);
        } else {
            assert((a + b)[i] == b[i - a.len()]);
        }
    }
}

/// SGR code for a green foreground.
pub open spec fn code_green() -> Seq<char> {
    seq!['3', '2']
}

/// SGR code for a blue foreground.
pub open spec fn code_blue() -> Seq<char> {
    seq!['3', '4']
}

/// SGR code for a yellow foreground.
pub open spec fn code_yellow() -> Seq<char> {
    seq!['3', '3']
}

/// SGR code for a white foreground.
pub open spec fn code_white() -> Seq<char> {
    seq!['3', '7']
}

/// SGR code for dimmed text.
pub open spec fn code_dimmed() -> Seq<char> {
    seq!['2']
}

/// SGR codes for bold, underlined text.
pub open spec fn code_bold_underline() -> Seq<char> {
    seq!['1', ';', '4']
}

/// Relies on colored's `Colorize::green` and `ColoredString`'s `Display`:
/// with coloring enabled the text is wrapped in `ESC[32m` ... `ESC[0m`,
/// re-opening the color after any reset sequence the text itself holds; with
/// coloring disabled the text passes through unchanged.
#[verifier::external_body]
pub(crate) fn paint_green(s: &str) -> (r: String)
    ensures
        painted(code_green(), s@, r@),
{
    format!("{}", s.green())
}

/// Relies on colored's `Colorize::blue`, as `paint_green` relies on `green`;
/// the wrapping codes are `ESC[34m` ... `ESC[0m`.
#[verifier::external_body]
pub(crate) fn paint_blue(s: &str) -> (r: String)
    ensures
        painted(code_blue(), s@, r@),
{
    format!("{}", s.blue())
}

/// Relies on colored's `Colorize::yellow`, as `paint_green` relies on
/// `green`; the wrapping codes are `ESC[33m` ... `ESC[0m`.
#[verifier::external_body]
pub(crate) fn paint_yellow(s: &str) -> (r: String)
    ensures
        painted(code_yellow(), s@, r@),
{
    format!("{}", s.yellow())
}

/// Relies on colored's `Colorize::white`, as `paint_green` relies on
/// `green`; the wrapping codes are `ESC[37m` ... `ESC[0m`.
#[verifier::external_body]
pub(crate) fn paint_white(s: &str) -> (r: String)
    ensures
        painted(code_white(), s@, r@),
{
    format!("{}", s.white())
}

/// Relies on colored's `Colorize::dimmed`, as `paint_green` relies on
/// `green`; the wrapping codes are `ESC[2m` ... `ESC[0m`.
#[verifier::external_body]
pub(crate) fn paint_dimmed(s: &str) -> (r: String)
    ensures
        painted(code_dimmed(), s@, r@),
{
    format!("{}", s.dimmed())
}

/// Relies on colored's `Colorize::bold` and `underline`: the two style
/// switches render, in colored's fixed style order, as the single sequence
/// `ESC[1;4m` ... `ESC[0m`; with coloring disabled the text passes through
/// unchanged.
#[verifier::external_body]
pub(crate) fn paint_bold_underline(s: &str) -> (r: String)
    ensures
        painted(code_bold_underline(), s@, r@),
{
    format!("{}", s.bold().underline())
}

} // verus!
