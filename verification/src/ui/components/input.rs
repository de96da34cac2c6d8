//! A one-line input field.

use crate::text::{byte_len, byte_length};
use vstd::prelude::*;

verus! {

/// How an input field presents itself.
#[derive(Debug, Clone, Copy, PartialEq, Eq, Structural)]
pub enum InputState {
    Normal,
    Focused,
    Valid,
    Invalid,
}

/// An input field: what it holds and how it is shown.
pub struct Input<'a> {
    pub value: &'a str,
    pub placeholder: &'a str,
    pub state: InputState,
    pub show_cursor: bool,
    pub width: u16,
}

impl<'a> Input<'a> {
    /// A field that holds `value`: no placeholder, in the normal state,
    /// with a cursor, ten columns wide.
    pub fn new(value: &'a str) -> (r: Self)
        ensures
            r.value@ == value@,
            r.placeholder@.len() == 0,
            r.state == InputState::Normal,
            r.show_cursor,
            r.width == 10,
    {
        proof {
            reveal_strlit("");
        }
        Input { value, placeholder: "", state: InputState::Normal, show_cursor: true, width: 10 }
    }

    /// The field with the placeholder `placeholder`.
    pub fn placeholder(self, placeholder: &'a str) -> (r: Self)
        ensures
            r == (Input { placeholder, ..self }),
    {
        Input { placeholder, ..self }
    }

    /// The field in the state `state`.
    pub fn state(self, state: InputState) -> (r: Self)
        ensures
            r == (Input { state, ..self }),
    {
        Input { state, ..self }
    }

    /// The field with or without a cursor.
    pub fn show_cursor(self, show: bool) -> (r: Self)
        ensures
            r == (Input { show_cursor: show, ..self }),
    {
        Input { show_cursor: show, ..self }
    }

    /// The field `width` columns wide.
    pub fn width(self, width: u16) -> (r: Self)
        ensures
            r == (Input { width, ..self }),
    {
        Input { width, ..self }
    }

    /// What the field shows: the placeholder while it holds nothing, else
    /// what it holds, followed by `_` where a cursor is shown.
    pub open spec fn shown(self) -> Seq<char> {
        if self.value@.len() == 0 {
            self.placeholder@
        } else if self.show_cursor {
            self.value@.push('_')
        } else {
            self.value@
        }
    }

    /// What the field shows.
    pub fn display_text(&self) -> (r: String)
        ensures
            r@ == self.shown(),
    {
        if self.value.unicode_len() == 0 {
            self.placeholder.to_owned()
        } else if self.show_cursor {
            let mut r = self.value.to_owned();
            crate::text::push_char(&mut r, '_');
            r
        } else {
            self.value.to_owned()
        }
    }

    /// Whether the field shows its placeholder, which is drawn dimmed.
    pub fn shows_placeholder(&self) -> (r: bool)
        ensures
            r == (self.value@.len() == 0 && self.placeholder@.len() > 0),
    {
        self.value.unicode_len() == 0 && self.placeholder.unicode_len() > 0
    }

    /// The blank columns left and right of what the field shows, which
    /// centre it in the field's width: the columns that the bytes shown
    /// leave free, the odd one going to the right.
    pub fn padding(&self) -> (r: (usize, usize))
        ensures
            r.0 + r.1 == if byte_len(self.shown()) >= self.width {
                0
            } else {
                self.width - byte_len(self.shown())
            },
            r.0 == (r.0 + r.1) / 2,
    {
        let shown = self.display_text();
        let used = byte_length(shown.as_str());
        let width = self.width as usize;
        let free = if used >= width {
            0
        } else {
            width - used
        };
        let left = free / 2;
        (left, free - left)
    }
}

} // verus!
