//! What the front end shows, as plain values: the help line, the place of
//! the cursor, and the lines of the lists.

use crate::model::types::{digits, write_number, Delta};
use crate::ui::input::InputMode;
use vstd::prelude::*;
use vstd::string::StringExecFns;

verus! {

/// The heights of header, body and footer, in percent of the frame.
pub const HEADER_BODY_FOOTER: [u16; 3] = [10, 80, 10];

/// The heights of the help line and the input line, in percent of the header.
pub const HELP_AND_INPUT: [u16; 2] = [40, 60];

/// The width of each of the four columns, in percent of the body and of the footer.
pub const COLUMN: u16 = 25;

/// The number of columns that a text takes on a terminal.
pub uninterp spec fn width_of(text: Seq<char>) -> nat;

/// The number of columns that `text` takes on a terminal. This is
/// `UnicodeWidthStr::width` of the crate unicode-width: the displayed width
/// by the rules of Unicode Standard Annex 11, in which a character of the
/// ambiguous category counts as one column. It depends on the text alone.
#[verifier::external_body]
fn display_width(text: &str) -> (w: usize)
    ensures
        w == width_of(text@),
{
    unicode_width::UnicodeWidthStr::width(text)
}

/// Where the cursor goes for an input line of `width` columns in an area
/// whose corner is at `(x, y)`: nowhere in normal mode, else one column past
/// the text, inside the border, if the frame has such a column.
pub open spec fn cursor_at(mode: InputMode, x: u16, y: u16, width: nat) -> Option<(u16, u16)> {
    if mode == InputMode::Normal || x + width + 1 > u16::MAX || y + 1 > u16::MAX {
        None
    } else {
        Some(((x + width + 1) as u16, (y + 1) as u16))
    }
}

/// Places the cursor for an input line of `width` columns.
pub fn update_cursor(input_mode: InputMode, x: u16, y: u16, width: usize) -> (at: Option<(u16, u16)>)
    ensures
        at == cursor_at(input_mode, x, y, width as nat),
{
    match input_mode {
        InputMode::Normal => None,
        _ => {
            if y == u16::MAX || width >= 0xffff || width as u16 >= u16::MAX - x {
                None
            } else {
                Some((x + width as u16 + 1, y + 1))
            }
        },
    }
}

/// Places the cursor at the end of the input line `input`.
pub fn prompt_cursor(input_mode: InputMode, input: &str, x: u16, y: u16) -> (at: Option<(u16, u16)>)
    ensures
        at == cursor_at(input_mode, x, y, width_of(input@)),
{
    update_cursor(input_mode, x, y, display_width(input))
}

/// Whether the input line is shown highlighted: while it is open.
pub fn render_prompt(input_mode: InputMode) -> (highlighted: bool)
    ensures
        highlighted == (input_mode != InputMode::Normal),
{
    match input_mode {
        InputMode::Normal => false,
        _ => true,
    }
}

/// The help line for a mode: its pieces in order, each with whether it is
/// shown bold; and whether the whole line blinks.
pub open spec fn help_for(mode: InputMode) -> (Seq<(Seq<char>, bool)>, bool) {
    if mode == InputMode::Normal {
        (
            seq![
                ("Press "@, false),
                ("q"@, true),
                (" to exit, "@, false),
                ("t"@, true),
                (" to insert in the tbox."@, false),
                ("a"@, true),
                (" to insert in the abox."@, false),
            ],
            true,
        )
    } else {
        (
            seq![
                ("Press "@, false),
                ("Esc"@, true),
                (" to stop editing, "@, false),
                ("Enter"@, true),
                (" to load an .ntenc file"@, false),
            ],
            false,
        )
    }
}

/// The views of the pieces of a help line.
pub open spec fn pieces(spans: Seq<(&'static str, bool)>) -> Seq<(Seq<char>, bool)> {
    Seq::new(spans.len(), |i: int| (spans[i].0@, spans[i].1))
}

/// The help line for a mode.
pub fn render_help_text(input_mode: InputMode) -> (r: (Vec<(&'static str, bool)>, bool))
    ensures
        (pieces(r.0@), r.1) == help_for(input_mode),
{
    match input_mode {
        InputMode::Normal => {
            let spans = vec![
                ("Press ", false),
                ("q", true),
                (" to exit, ", false),
                ("t", true),
                (" to insert in the tbox.", false),
                ("a", true),
                (" to insert in the abox.", false),
            ];
            assert(pieces(spans@) =~= help_for(input_mode).0);
            (spans, true)
        },
        _ => {
            let spans = vec![
                ("Press ", false),
                ("Esc", true),
                (" to stop editing, ", false),
                ("Enter", true),
                (" to load an .ntenc file", false),
            ];
            assert(pieces(spans@) =~= help_for(input_mode).0);
            (spans, false)
        },
    }
}

/// A delta as a line of the list: subject, predicate and object in base ten with a space between.
pub open spec fn line_of(d: Delta) -> Seq<char> {
    digits(d.0.0 as nat) + seq![' '] + digits(d.0.1 as nat) + seq![' '] + digits(d.0.2 as nat)
}

/// Renders one delta as a line of the list.
pub fn message_line(d: &Delta) -> (s: String)
    ensures
        s@ == line_of(*d),
{
    proof {
        reveal_strlit(" ");
    }
    assert(" "@ =~= seq![' ']);
    let mut s = String::new();
    write_number(d.0.0 as u128, &mut s);
    s.append(" ");
    write_number(d.0.1 as u128, &mut s);
    s.append(" ");
    write_number(d.0.2 as u128, &mut s);
    proof {
        assert(s@ =~= line_of(*d));
    }
    s
}

/// The lines of a list of deltas, in order.
pub fn list_messages(messages: &Vec<Delta>) -> (lines: Vec<String>)
    ensures
        lines@.len() == messages@.len(),
        forall|i: int| 0 <= i < lines@.len() ==> (#[trigger] lines@[i])@ == line_of(messages@[i]),
{
    let mut lines: Vec<String> = Vec::new();
    let mut i: usize = 0;
    while i < messages.len()
        invariant
            i <= messages.len(),
            lines@.len() == i,
            forall|k: int| 0 <= k < i ==> (#[trigger] lines@[k])@ == line_of(messages@[k]),
        decreases messages.len() - i,
    {
        lines.push(message_line(&messages[i]));
        i += 1;
    }
    lines
}

/// The size of a list of deltas, in base ten.
pub fn list_triple_size(messages: &Vec<Delta>) -> (s: String)
    ensures
        s@ == digits(messages@.len()),
{
    let mut s = String::new();
    write_number(messages.len() as u128, &mut s);
    assert(s@ =~= digits(messages@.len()));
    s
}

/// A counter in base ten.
pub fn list_tick_counter(tick_counter: u32) -> (s: String)
    ensures
        s@ == digits(tick_counter as nat),
{
    let mut s = String::new();
    write_number(tick_counter as u128, &mut s);
    assert(s@ =~= digits(tick_counter as nat));
    s
}

} // verus!
