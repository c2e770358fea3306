//! The icon bar: zoom and navigation buttons, and the two text fields that
//! edit the bounds of the time range.
use crate::components::signals::{Bound, Message};
use vstd::prelude::*;

verus! {

/// A button of the icon bar: its glyph in the icon font and the message it
/// sends.
pub struct Icon {
    pub icon_char: char,
    pub message: Message,
}

impl Icon {
    pub fn new(icon_char: char, message: Message) -> (r: Self)
        ensures
            r.icon_char == icon_char,
            r.message == message,
    {
        Icon { icon_char, message }
    }
}

/// Whether `after` is the icon bar once `before` handles `message`: an edit
/// of a bound's text field replaces its text, a submission empties it.
pub open spec fn iconbar_step(before: IconBar, after: IconBar, message: Message) -> bool {
    &&& after.buttons_state@ == before.buttons_state@
    &&& match message {
        Message::TIUpdate(Bound::Left, val) => after.bounds_str.0@ == val@
            && after.bounds_str.1@ == before.bounds_str.1@,
        Message::TIUpdate(Bound::Right, val) => after.bounds_str.1@ == val@
            && after.bounds_str.0@ == before.bounds_str.0@,
        Message::BoundsUpdate(Bound::Left) => after.bounds_str.0@ == Seq::<char>::empty()
            && after.bounds_str.1@ == before.bounds_str.1@,
        Message::BoundsUpdate(Bound::Right) => after.bounds_str.1@ == Seq::<char>::empty()
            && after.bounds_str.0@ == before.bounds_str.0@,
        _ => false,
    }
}

/// The text of the field of bound `b`.
pub open spec fn field_text(bar: IconBar, b: Bound) -> Seq<char> {
    match b {
        Bound::Left => bar.bounds_str.0@,
        Bound::Right => bar.bounds_str.1@,
    }
}

/// Typing `val` into the field of bound `b` and then submitting bound `c`
/// leaves field `b` empty where `c` is `b`, and holding `val` where it is
/// the other bound; the field of `c` is empty either way, and every field
/// that neither message names keeps its text.
pub proof fn lemma_edit_then_submit(before: IconBar, mid: IconBar, after: IconBar, b: Bound, c: Bound, val: String)
    requires
        iconbar_step(before, mid, Message::TIUpdate(b, val)),
        iconbar_step(mid, after, Message::BoundsUpdate(c)),
    ensures
        field_text(after, c) == Seq::<char>::empty(),
        field_text(after, b) == if b == c {
            Seq::<char>::empty()
        } else {
            val@
        },
        b == c ==> field_text(after, other_bound(b)) == field_text(before, other_bound(b)),
        after.buttons_state@ == before.buttons_state@,
{
}

/// The bound that is not `b`.
pub open spec fn other_bound(b: Bound) -> Bound {
    match b {
        Bound::Left => Bound::Right,
        Bound::Right => Bound::Left,
    }
}

/// The state of the icon bar.
pub struct IconBar {
    pub buttons_state: Vec<Icon>,
    pub bounds_str: (String, String),
}

impl Default for IconBar {
    fn default() -> (r: Self)
        ensures
            r.buttons_state@.len() == 6,
            r.buttons_state@[0].message is ZoomIn,
            r.buttons_state@[1].message is ZoomOut,
            r.buttons_state@[2].message is GoToStart,
            r.buttons_state@[3].message is GoToEnd,
            r.buttons_state@[4].message is Prev,
            r.buttons_state@[5].message is Next,
            r.bounds_str.0@ == Seq::<char>::empty(),
            r.bounds_str.1@ == Seq::<char>::empty(),
    {
        let mut buttons_state: Vec<Icon> = Vec::new();
        buttons_state.push(Icon::new('\u{f5b0}', Message::ZoomIn));
        buttons_state.push(Icon::new('\u{f5b1}', Message::ZoomOut));
        buttons_state.push(Icon::new('\u{f264}', Message::GoToStart));
        buttons_state.push(Icon::new('\u{f265}', Message::GoToEnd));
        buttons_state.push(Icon::new('\u{f26d}', Message::Prev));
        buttons_state.push(Icon::new('\u{f26e}', Message::Next));
        IconBar { buttons_state, bounds_str: (empty_string(), empty_string()) }
    }
}

fn empty_string() -> (r: String)
    ensures
        r@ == Seq::<char>::empty(),
{
    proof {
        reveal_strlit("");
    }
    String::from_str("")
}

impl IconBar {
    /// Handles an edit of a bound's text field (the text replaces the field)
    /// or its submission (the field is emptied).
    pub fn update(&mut self, message: Message)
        requires
            message is TIUpdate || message is BoundsUpdate,
        ensures
            iconbar_step(*old(self), *final(self), message),
    {
        match message {
            Message::TIUpdate(bound, val) => match bound {
                Bound::Left => self.bounds_str.0 = val,
                Bound::Right => self.bounds_str.1 = val,
            },
            Message::BoundsUpdate(bound) => match bound {
                Bound::Left => self.bounds_str.0 = empty_string(),
                Bound::Right => self.bounds_str.1 = empty_string(),
            },
            _ => {},
        }
    }
}

} // verus!
