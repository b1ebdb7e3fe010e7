//! What the library takes on trust from the standard library and from ratatui.

use crate::ui::{self, Area, Axis, Room};
use ratatui::layout::{Constraint, Direction, Layout, Rect};
use vstd::prelude::*;
use vstd::utf8;

verus! {

/// `String::push` appends the given character to the end of the string.
pub assume_specification[ String::push ](s: &mut String, c: char)
    ensures
        final(s)@ == old(s)@.push(c),
;

/// `String::pop` removes the last character and returns it; an empty string
/// stays as it is and gives `None`.
pub assume_specification[ String::pop ](s: &mut String) -> (last: Option<char>)
    ensures
        old(s)@.len() == 0 ==> last is None && final(s)@ == old(s)@,
        old(s)@.len() > 0 ==> last == Some(old(s)@.last()) && final(s)@ == old(s)@.drop_last(),
;

/// `std::str::from_utf8` accepts exactly the byte strings that are UTF-8, and
/// the text it gives is the one they encode.
#[verifier::external_body]
pub(crate) fn utf8_text(bytes: &[u8]) -> (text: Option<String>)
    ensures
        text is Some <==> utf8::valid_utf8(bytes@),
        text matches Some(t) ==> t@ == utf8::decode_utf8(bytes@),
{
    match std::str::from_utf8(bytes) {
        Ok(t) => Some(t.to_string()),
        Err(_) => None,
    }
}

/// What `String::from_utf8_lossy` makes of a byte string.
pub uninterp spec fn lossy(bytes: Seq<u8>) -> Seq<char>;

/// `String::from_utf8_lossy` is a function of the bytes alone; bytes that are
/// UTF-8 give the text they encode.
#[verifier::external_body]
pub(crate) fn lossy_text(bytes: &[u8]) -> (text: String)
    ensures
        text@ == lossy(bytes@),
        utf8::valid_utf8(bytes@) ==> text@ == utf8::decode_utf8(bytes@),
{
    String::from_utf8_lossy(bytes).into_owned()
}

/// What `str::to_lowercase` makes of a text.
pub uninterp spec fn lowercase(text: Seq<char>) -> Seq<char>;

/// `str::to_lowercase` maps a text by the Unicode tables, whatever the locale:
/// its result is a function of the text alone.
#[verifier::external_body]
pub(crate) fn lowercase_text(text: &str) -> (lower: String)
    ensures
        lower@ == lowercase(text@),
{
    text.to_lowercase()
}

/// How `{:?}` prints a list of strings.
pub uninterp spec fn debug_list(items: Seq<Seq<char>>) -> Seq<char>;

/// Formatting with `{:?}` prints a list of strings in a way that depends on
/// the strings alone.
#[verifier::external_body]
pub(crate) fn debug_text(items: &Vec<String>) -> (text: String)
    ensures
        text@ == debug_list(Seq::new(items@.len(), |i: int| items@[i]@)),
{
    format!("{:?}", items)
}

/// `Layout::split` of ratatui gives an area for each constraint. Across its
/// direction every area is as large as the whole and starts where that starts;
/// along its direction every area lies within the whole, which the solver is
/// given as a requirement. Where a few constraints can all be met, the areas
/// follow one another from the start and meet them: a length exactly, a minimum
/// with all that is left, and a percentage up to the rounding of both its ends.
/// Where they cannot all be met the solver gives some of them up; which ones it
/// finds in floating-point numbers, and it walks hash maps that each process
/// seeds anew: of that nothing is said.
#[verifier::external_body]
pub(crate) fn split_area(whole: Area, axis: Axis, rooms: &Vec<Room>) -> (parts: Vec<Area>)
    ensures
        ui::divided(whole, axis, rooms@, parts@),
{
    let constraints = rooms.iter().map(|r| match r {
        Room::Length(n) => Constraint::Length(*n),
        Room::Min(n) => Constraint::Min(*n),
        Room::Percentage(n) => Constraint::Percentage(*n),
    });
    let direction = match axis {
        Axis::Horizontal => Direction::Horizontal,
        Axis::Vertical => Direction::Vertical,
    };
    let rect = Rect { x: whole.x, y: whole.y, width: whole.width, height: whole.height };
    let parts = Layout::default().direction(direction).constraints(constraints).split(rect);
    parts.iter().map(|p| Area { x: p.x, y: p.y, width: p.width, height: p.height }).collect()
}

} // verus!
