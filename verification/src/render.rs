use vstd::prelude::*;

use crate::config::Config;
use crate::entry::{Entry, EntryKind, EntryV};
use crate::paint::{
    ansi_wrapped, code_blue, code_bold_underline, code_dimmed, code_green, code_white, code_yellow,
    has_esc, lemma_no_esc_concat, lemma_no_esc_no_reset, paint_blue, paint_bold_underline,
    paint_dimmed, paint_green, paint_white, paint_yellow, painted,
};

verus! {

/// `n` spaces.
pub open spec fn spaces(n: nat) -> Seq<char>
    decreases n,
{
    if n == 0 {
        Seq::empty()
    } else {
        spaces((n - 1) as nat) + seq![' ']
    }
}

/// `s` padded on the left with spaces to at least `width` characters.
pub open spec fn pad_left_spec(s: Seq<char>, width: nat) -> Seq<char> {
    if s.len() >= width {
        s
    } else {
        spaces((width - s.len()) as nat) + s
    }
}

/// A run of spaces never holds the escape character.
proof fn lemma_spaces_no_esc(n: nat)
    ensures
        !has_esc(spaces(n)),
        spaces(n).len() == n,
    decreases n,
{
    if n > 0 {
        lemma_spaces_no_esc((n - 1) as nat);
        assert forall|i: int| 0 <= i < spaces(n).len() implies spaces(n)[i]
            != crate::paint::esc() by {
            if i < n - 1 {
                assert(spaces(n)[i] == spaces((n - 1) as nat)[i]);
            } else {
                assert(spaces(n)[i] == ' ');
            }
        }
    }
}

/// A string of `n` spaces.
pub fn spaces_string(n: usize) -> (r: String)
    ensures
        r@ == spaces(n as nat),
{
    let mut r = String::new();
    let mut i: usize = 0;
    proof {
        reveal_strlit(" ");
    }
    while i < n
        invariant
            i <= n,
            r@ == spaces(i as nat),
            " "@ == seq![' '],
        decreases n - i,
    {
        r.append(" ");
        i += 1;
    }
    r
}

/// `s` padded on the left with spaces to at least `width` characters,
/// leaving longer text unchanged.
pub fn pad_left(s: &str, width: usize) -> (r: String)
    ensures
        r@ == pad_left_spec(s@, width as nat),
{
    let len = s.unicode_len();
    if len >= width {
        String::from_str(s)
    } else {
        let mut r = spaces_string(width - len);
        r.append(s);
        r
    }
}

/// How bytesize renders a byte count: a pure function of the count alone.
pub uninterp spec fn size_rendered(n: u64) -> Seq<char>;

/// Relies on bytesize's `Display` for `ByteSize`: a rendering of the byte
/// count that depends on the count alone, in IEC units with one fractional
/// digit above one kibibyte ("1.0 KiB") and as a plain byte count below it
/// ("0 B"), never holding an escape character.
#[verifier::external_body]
fn bytesize_display(n: u64) -> (r: String)
    ensures
        r@ == size_rendered(n),
        n == 0 ==> r@ == "0 B"@,
        n == 1024 ==> r@ == "1.0 KiB"@,
        !has_esc(r@),
{
    format!("{}", bytesize::ByteSize(n))
}

/// The width of the size column.
pub const SIZE_WIDTH: usize = 9;

/// The size column before colorizing: the rendered count, right-aligned to
/// the column width.
pub open spec fn size_cell_plain(n: u64) -> Seq<char> {
    pad_left_spec(size_rendered(n), SIZE_WIDTH as nat)
}

/// What the size column may look like: its plain text, colorized green.
pub open spec fn is_size_cell(n: u64, r: Seq<char>) -> bool {
    painted(code_green(), size_cell_plain(n), r)
}

/// The size column: the byte count in human-readable units, right-aligned to
/// nine characters and colorized green — exactly the plain text, or exactly
/// its green wrapping, as the environment decides.
pub fn format_size(n: u64) -> (r: String)
    ensures
        is_size_cell(n, r@),
        r@ == size_cell_plain(n) || r@ == ansi_wrapped(code_green(), size_cell_plain(n)),
        n == 0 ==> size_rendered(0) == "0 B"@,
        n == 1024 ==> size_rendered(1024) == "1.0 KiB"@,
{
    let rendered = bytesize_display(n);
    let padded = pad_left(rendered.as_str(), SIZE_WIDTH);
    proof {
        if rendered@.len() < SIZE_WIDTH {
            lemma_spaces_no_esc((SIZE_WIDTH - rendered@.len()) as nat);
            lemma_no_esc_concat(spaces((SIZE_WIDTH - rendered@.len()) as nat), rendered@);
        }
        lemma_no_esc_no_reset(padded@);
    }
    paint_green(padded.as_str())
}

/// The first second of the year 0, the earliest instant the timestamp
/// rendering covers: RFC 2822 has no year before it.
pub const MIN_RFC2822_SECS: i64 = -62167219200;

/// The last second of the year 9999, the latest instant the timestamp
/// rendering covers: RFC 2822 has no year past it.
pub const MAX_RFC2822_SECS: i64 = 253402300799;

/// How chrono renders a UTC instant in RFC 2822 form: a pure function of the
/// timestamp alone.
pub uninterp spec fn rfc2822_utc(secs: i64) -> Seq<char>;

/// Relies on chrono's `DateTime::from_timestamp` and `to_rfc2822`: for whole
/// seconds in the years 0..=9999 the timestamp exists and renders as
/// `Www, D Mmm YYYY HH:MM:SS +0000` — the day unpadded below ten, the year
/// four digits — always ending in the six-character UTC offset ` +0000` and
/// never holding an escape character.
#[verifier::external_body]
fn rfc2822_render(secs: i64) -> (r: String)
    requires
        MIN_RFC2822_SECS <= secs <= MAX_RFC2822_SECS,
    ensures
        r@ == rfc2822_utc(secs),
        r@.len() >= 6,
        r@.subrange(r@.len() - 6, r@.len() as int) == " +0000"@,
        !has_esc(r@),
{
    match chrono::DateTime::from_timestamp(secs, 0) {
        Option::Some(dt) => dt.to_rfc2822(),
        Option::None => String::new(),
    }
}

/// The timestamp column before colorizing: the RFC 2822 rendering with its
/// constant ` +0000` offset suffix stripped.
pub open spec fn modified_plain(secs: i64) -> Seq<char> {
    rfc2822_utc(secs).take(rfc2822_utc(secs).len() - 6)
}

/// What the timestamp column may look like: its plain text, colorized blue.
pub open spec fn is_modified_cell(secs: i64, r: Seq<char>) -> bool {
    painted(code_blue(), modified_plain(secs), r)
}

/// The modification-time column: the instant in RFC 2822 calendar form,
/// always UTC and without the redundant offset suffix, colorized blue —
/// exactly the plain text, or exactly its blue wrapping, as the environment
/// decides. `None` exactly when the instant lies outside the years
/// 0..=9999, where RFC 2822 has no rendering.
pub fn format_modified(secs: i64) -> (r: Option<String>)
    ensures
        (r is Some) <==> (MIN_RFC2822_SECS <= secs <= MAX_RFC2822_SECS),
        r matches Some(c) ==> is_modified_cell(secs, c@),
        r matches Some(c) ==> (c@ == modified_plain(secs) || c@ == ansi_wrapped(
            code_blue(),
            modified_plain(secs),
        )),
{
    if MIN_RFC2822_SECS <= secs && secs <= MAX_RFC2822_SECS {
        let full = rfc2822_render(secs);
        let len = full.as_str().unicode_len();
        let stripped = full.as_str().substring_char(0, len - 6);
        proof {
            assert forall|i: int| 0 <= i < stripped@.len() implies stripped@[i]
                != crate::paint::esc() by {
                assert(stripped@[i] == full@[i]);
            }
            lemma_no_esc_no_reset(stripped@);
        }
        Option::Some(paint_blue(stripped))
    } else {
        Option::None
    }
}

/// The indentation marker, one arrow-like glyph and a space.
pub open spec fn marker() -> Seq<char> {
    seq!['\u{2937}', ' ']
}

/// The marker repeated `n` times.
pub open spec fn marker_repeat(n: nat) -> Seq<char>
    decreases n,
{
    if n == 0 {
        Seq::empty()
    } else {
        marker_repeat((n - 1) as nat) + marker()
    }
}

/// The indentation before a name: the marker once per level below the
/// walk's first printed depth, so depth minus one times, and none at all for
/// the root.
pub open spec fn indent_plain(depth: nat) -> Seq<char> {
    if depth > 0 {
        marker_repeat((depth - 1) as nat)
    } else {
        Seq::empty()
    }
}

/// The marker repeated `n` times, as a string.
fn repeat_marker(n: usize) -> (r: String)
    ensures
        r@ == marker_repeat(n as nat),
{
    let mut r = String::new();
    let mut i: usize = 0;
    proof {
        reveal_strlit("\u{2937} ");
    }
    while i < n
        invariant
            i <= n,
            r@ == marker_repeat(i as nat),
            "\u{2937} "@ == marker(),
        decreases n - i,
    {
        r.append("\u{2937} ");
        i += 1;
    }
    r
}

/// The SGR codes an entry's name is colorized with: white for files, blue
/// for directories, yellow for anything else.
pub open spec fn kind_code(k: EntryKind) -> Seq<char> {
    match k {
        EntryKind::File => code_white(),
        EntryKind::Directory => code_blue(),
        EntryKind::Other => code_yellow(),
    }
}

/// What the name column may look like: the dimmed indentation, then the
/// name colorized by kind.
pub open spec fn is_name_cell(e: EntryV, r: Seq<char>) -> bool {
    exists|ind: Seq<char>, nm: Seq<char>|
        painted(code_dimmed(), indent_plain(e.depth), ind) && painted(kind_code(e.kind), e.name, nm)
            && r == #[trigger] (ind + nm)
}

/// The name column: the indentation marker, dimmed, once per level past the
/// first, then the entry's display name colorized by kind.
pub fn format_name(e: &Entry) -> (r: String)
    ensures
        is_name_cell(e@, r@),
{
    let levels = if e.depth > 0 {
        e.depth - 1
    } else {
        0
    };
    let ind_plain = repeat_marker(levels);
    let mut r = paint_dimmed(ind_plain.as_str());
    let ghost ind = r@;
    let nm = match e.kind {
        EntryKind::File => paint_white(e.name.as_str()),
        EntryKind::Directory => paint_blue(e.name.as_str()),
        EntryKind::Other => paint_yellow(e.name.as_str()),
    };
    r.append(nm.as_str());
    proof {
        assert(painted(code_dimmed(), indent_plain(e@.depth), ind));
        assert(painted(kind_code(e@.kind), e@.name, nm@));
        assert(r@ == ind + nm@);
    }
    r
}

/// What one output row may look like: the size column, a tab, with the
/// timestamp toggle the timestamp column right-aligned to twenty-five
/// characters and a tab, then the name column.
pub open spec fn is_entry_line(e: EntryV, show_modified: bool, r: Seq<char>) -> bool {
    if show_modified {
        exists|sz: Seq<char>, md: Seq<char>, nm: Seq<char>|
            is_size_cell(e.size, sz) && is_modified_cell(e.modified_secs, md) && is_name_cell(
                e,
                nm,
            ) && r == #[trigger] (sz + seq!['\t'] + pad_left_spec(md, 25) + seq!['\t'] + nm)
    } else {
        exists|sz: Seq<char>, nm: Seq<char>|
            is_size_cell(e.size, sz) && is_name_cell(e, nm) && r == #[trigger] (sz + seq!['\t']
                + nm)
    }
}

/// One output row for an entry. `None` exactly when the timestamp column is
/// asked for but the entry's instant lies outside the years 0..=9999.
pub fn format_entry_line(e: &Entry, show_modified: bool) -> (r: Option<String>)
    ensures
        (r is Some) <==> (!show_modified || MIN_RFC2822_SECS <= e.modified_secs
            <= MAX_RFC2822_SECS),
        r matches Some(line) ==> is_entry_line(e@, show_modified, line@),
{
    proof {
        reveal_strlit("\t");
    }
    let mut line = format_size(e.size);
    let ghost sz = line@;
    line.append("\t");
    if show_modified {
        let md = match format_modified(e.modified_secs) {
            Option::Some(md) => md,
            Option::None => {
                return Option::None;
            },
        };
        let padded_md = pad_left(md.as_str(), 25);
        line.append(padded_md.as_str());
        line.append("\t");
        let nm = format_name(e);
        line.append(nm.as_str());
        proof {
            assert(line@ == sz + seq!['\t'] + pad_left_spec(md@, 25) + seq!['\t'] + nm@);
        }
        Option::Some(line)
    } else {
        let nm = format_name(e);
        line.append(nm.as_str());
        proof {
            assert(line@ == sz + seq!['\t'] + nm@);
        }
        Option::Some(line)
    }
}

/// What the header row may look like: five spaces, the bold underlined
/// `Size` label, with the timestamp toggle a tab-framed bold underlined
/// `Modified at` label padded to twenty-five characters, a tab, eleven
/// spaces, and the bold underlined `Name` label.
pub open spec fn is_header_line(show_modified: bool, r: Seq<char>) -> bool {
    exists|szl: Seq<char>, mdl: Seq<char>, nml: Seq<char>|
        #[trigger] painted(code_bold_underline(), "Size"@, szl) && #[trigger] painted(
            code_bold_underline(),
            "Name"@,
            nml,
        ) && #[trigger] painted(code_bold_underline(), "Modified at"@, mdl) && r == spaces(5) + szl
            + (if show_modified {
            pad_left_spec(seq!['\t'] + mdl + seq!['\t'], 25)
        } else {
            Seq::empty()
        }) + seq!['\t'] + spaces(11) + nml
}

/// The header row, with the same column layout as the data rows.
pub fn header_line(show_modified: bool) -> (r: String)
    ensures
        is_header_line(show_modified, r@),
{
    proof {
        reveal_strlit("\t");
    }
    let mut r = spaces_string(5);
    let szl = paint_bold_underline("Size");
    r.append(szl.as_str());
    let mdl = paint_bold_underline("Modified at");
    if show_modified {
        let mut inner = String::from_str("\t");
        inner.append(mdl.as_str());
        inner.append("\t");
        let padded = pad_left(inner.as_str(), 25);
        r.append(padded.as_str());
    }
    r.append("\t");
    let sp = spaces_string(11);
    r.append(sp.as_str());
    let nml = paint_bold_underline("Name");
    r.append(nml.as_str());
    proof {
        assert(r@ == spaces(5) + szl@ + (if show_modified {
            pad_left_spec(seq!['\t'] + mdl@ + seq!['\t'], 25)
        } else {
            Seq::<char>::empty()
        }) + seq!['\t'] + spaces(11) + nml@);
    }
    r
}

/// The whole output: with the header toggle the header row first, then one
/// row per entry, in the given order — without the toggle the first line,
/// if any, is a data row. `None` exactly when the timestamp column is asked
/// for and some entry's instant lies outside the years 0..=9999.
pub fn render_listing(cfg: &Config, entries: &Vec<Entry>) -> (r: Option<Vec<String>>)
    ensures
        (r is Some) <==> (!cfg.show_modified || forall|i: int|
            0 <= i < entries@.len() ==> MIN_RFC2822_SECS <= (#[trigger] entries@[i]).modified_secs
                <= MAX_RFC2822_SECS),
        r matches Some(lines) ==> ({
            let off: int = if cfg.show_headers {
                1
            } else {
                0
            };
            &&& lines@.len() == entries@.len() + off
            &&& (cfg.show_headers ==> is_header_line(cfg.show_modified, lines@[0]@))
            &&& forall|i: int|
                0 <= i < entries@.len() ==> is_entry_line(
                    entries@[i]@,
                    cfg.show_modified,
                    (#[trigger] lines@[i + off])@,
                )
        }),
{
    let mut lines: Vec<String> = Vec::new();
    let ghost off: int = if cfg.show_headers {
        1
    } else {
        0
    };
    if cfg.show_headers {
        lines.push(header_line(cfg.show_modified));
    }
    let mut i: usize = 0;
    while i < entries.len()
        invariant
            i <= entries@.len(),
            off == if cfg.show_headers {
                1int
            } else {
                0int
            },
            lines@.len() == i + off,
            cfg.show_headers ==> is_header_line(cfg.show_modified, lines@[0]@),
            forall|k: int|
                0 <= k < i ==> is_entry_line(
                    entries@[k]@,
                    cfg.show_modified,
                    (#[trigger] lines@[k + off])@,
                ),
            forall|k: int|
                0 <= k < i ==> !cfg.show_modified || MIN_RFC2822_SECS <= (
                #[trigger] entries@[k]).modified_secs <= MAX_RFC2822_SECS,
        decreases entries@.len() - i,
    {
        let line = match format_entry_line(&entries[i], cfg.show_modified) {
            Option::Some(line) => line,
            Option::None => {
                return Option::None;
            },
        };
        lines.push(line);
        i += 1;
    }
    Option::Some(lines)
}

} // verus!
