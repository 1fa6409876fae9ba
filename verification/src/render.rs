//! Match records and the display line of a match.
//!
//! A match is displayed as the path, a space, the label `(line N)`, a colon
//! and a space, and the trimmed content. With [`Style::Ansi`] the path is
//! painted green and the label yellow.

use vstd::prelude::*;
use crate::text::{push_char, trim, trimmed};

verus! {

/// How a display line is decorated.
#[derive(Clone, Copy, Debug, PartialEq, Eq, Structural)]
pub enum Style {
    /// No decoration.
    Plain,
    /// ANSI colour sequences around the path and around the line label.
    Ansi,
}

/// One matching line of one file.
#[derive(Clone, Debug)]
pub struct MatchRecord {
    /// The path of the file, as it is displayed.
    pub path: String,
    /// The position of the line in the file, counted from 1.
    pub line_number: usize,
    /// The line without leading and trailing white space.
    pub content: String,
}

/// What a [`MatchRecord`] stands for.
pub struct MatchView {
    pub path: Seq<char>,
    pub line_number: nat,
    pub content: Seq<char>,
}

impl View for MatchRecord {
    type V = MatchView;

    open spec fn view(&self) -> MatchView {
        MatchView { path: self.path@, line_number: self.line_number as nat, content: self.content@ }
    }
}

/// The views of a sequence of records.
pub open spec fn record_views(records: Seq<MatchRecord>) -> Seq<MatchView> {
    Seq::new(records.len(), |i: int| records[i]@)
}

/// The decimal digit of `d`.
pub open spec fn digit(d: int) -> char {
    if d == 0 {
        '0'
    } else if d == 1 {
        '1'
    } else if d == 2 {
        '2'
    } else if d == 3 {
        '3'
    } else if d == 4 {
        '4'
    } else if d == 5 {
        '5'
    } else if d == 6 {
        '6'
    } else if d == 7 {
        '7'
    } else if d == 8 {
        '8'
    } else {
        '9'
    }
}

/// The decimal numeral of `n`, without leading zeros.
pub open spec fn decimal(n: nat) -> Seq<char>
    decreases n,
{
    if n < 10 {
        seq![digit(n as int)]
    } else {
        decimal(n / 10).push(digit((n % 10) as int))
    }
}

/// The sequence that switches to green.
pub open spec fn green() -> Seq<char> {
    "\x1b[32m"@
}

/// The sequence that switches to yellow.
pub open spec fn yellow() -> Seq<char> {
    "\x1b[33m"@
}

/// The sequence that switches colours off.
pub open spec fn reset() -> Seq<char> {
    "\x1b[0m"@
}

/// `text` in the colour that `color` switches to, or bare in plain style.
pub open spec fn painted(text: Seq<char>, color: Seq<char>, style: Style) -> Seq<char> {
    match style {
        Style::Plain => text,
        Style::Ansi => color + text + reset(),
    }
}

/// The label of line `number`.
pub open spec fn line_label(number: nat) -> Seq<char> {
    "(line "@ + decimal(number) + ")"@
}

/// The display line of a match.
pub open spec fn rendered(path: Seq<char>, number: nat, content: Seq<char>, style: Style) -> Seq<
    char,
> {
    painted(path, green(), style) + " "@ + painted(line_label(number), yellow(), style) + ": "@
        + content
}

/// The display line of a record.
pub open spec fn rendered_record(record: MatchView, style: Style) -> Seq<char> {
    rendered(record.path, record.line_number, record.content, style)
}

/// The character of a decimal digit.
fn digit_char(d: u8) -> (c: char)
    requires
        d < 10,
    ensures
        c == digit(d as int),
{
    match d {
        0 => '0',
        1 => '1',
        2 => '2',
        3 => '3',
        4 => '4',
        5 => '5',
        6 => '6',
        7 => '7',
        8 => '8',
        _ => '9',
    }
}

/// Appends the decimal numeral of `n` to `out`.
pub fn push_decimal(out: &mut String, n: u128)
    ensures
        final(out)@ == old(out)@ + decimal(n as nat),
    decreases n,
{
    if n >= 10 {
        push_decimal(out, n / 10);
    }
    let ghost before = out@;
    push_char(out, digit_char((n % 10) as u8));
    proof {
        if n < 10 {
            assert(out@ =~= old(out)@ + decimal(n as nat));
        } else {
            assert(before == old(out)@ + decimal((n / 10) as nat));
            assert(out@ =~= old(out)@ + decimal(n as nat));
        }
    }
}

/// Appends `text` to `out`, painted in `color` if the style asks for it.
fn push_painted(out: &mut String, text: &str, color: &str, style: Style)
    ensures
        final(out)@ == old(out)@ + painted(text@, color@, style),
{
    match style {
        Style::Plain => {
            out.append(text);
        },
        Style::Ansi => {
            out.append(color);
            out.append(text);
            out.append("\x1b[0m");
            proof {
                assert(out@ =~= old(out)@ + (color@ + text@ + reset()));
            }
        },
    }
}

/// Renders the display line of the match of line `number` of `path`, whose
/// trimmed content is `content`.
pub fn render_line(path: &str, number: u128, content: &str, style: Style) -> (out: String)
    ensures
        out@ == rendered(path@, number as nat, content@, style),
{
    let mut label = String::new();
    label.append("(line ");
    push_decimal(&mut label, number);
    label.append(")");
    proof {
        assert(label@ =~= line_label(number as nat));
    }
    let mut out = String::new();
    push_painted(&mut out, path, "\x1b[32m", style);
    out.append(" ");
    push_painted(&mut out, label.as_str(), "\x1b[33m", style);
    out.append(": ");
    out.append(content);
    proof {
        assert(out@ =~= rendered(path@, number as nat, content@, style));
    }
    out
}

/// Formats the match of the line at position `index`, counted from 0, of
/// the file displayed as `display`: in colour, with the line number counted
/// from 1 and the line trimmed.
pub fn format_result(display: &str, index: usize, line: &str) -> (out: String)
    ensures
        out@ == rendered(display@, (index + 1) as nat, trimmed(line@), Style::Ansi),
{
    let number: u128 = index as u128 + 1;
    render_line(display, number, trim(line), Style::Ansi)
}

impl MatchRecord {
    /// Whether the record is one that a search can produce: its line number
    /// is at least 1 and its content is trimmed.
    pub open spec fn wf(&self) -> bool {
        &&& self.line_number >= 1
        &&& trimmed(self.content@) == self.content@
    }

    /// Renders the display line of the record.
    pub fn render(&self, style: Style) -> (out: String)
        ensures
            out@ == rendered_record(self@, style),
    {
        render_line(self.path.as_str(), self.line_number as u128, self.content.as_str(), style)
    }
}

} // verus!
