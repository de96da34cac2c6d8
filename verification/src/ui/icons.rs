//! The symbols that the screens use.

use vstd::prelude::*;

verus! {

/// A set of symbols.
#[derive(Debug, Clone, Copy)]
pub struct Icons {
    pub check: &'static str,
    pub cross: &'static str,
    pub bullet: &'static str,
    pub arrow_right: &'static str,
    pub warning: &'static str,
    pub info: &'static str,
    pub hourglass: &'static str,
    pub search: &'static str,
    pub backspace: &'static str,
    pub enter: &'static str,
    pub page_up: &'static str,
    pub page_down: &'static str,
    pub block_filled: &'static str,
    pub block_empty: &'static str,
}

/// The Unicode set of symbols.
pub open spec fn unicode_icons() -> Icons {
    Icons {
        check: "✓",
        cross: "✗",
        bullet: "●",
        arrow_right: "▶",
        warning: "⚠",
        info: "ⓘ",
        hourglass: "⌛",
        search: "🔍",
        backspace: "⌫",
        enter: "⏎",
        page_up: "⇞",
        page_down: "⇟",
        block_filled: "█",
        block_empty: "░",
    }
}

impl Icons {
    /// The Unicode set of symbols.
    pub fn unicode() -> (r: Self)
        ensures
            r == unicode_icons(),
    {
        Icons {
            check: "✓",
            cross: "✗",
            bullet: "●",
            arrow_right: "▶",
            warning: "⚠",
            info: "ⓘ",
            hourglass: "⌛",
            search: "🔍",
            backspace: "⌫",
            enter: "⏎",
            page_up: "⇞",
            page_down: "⇟",
            block_filled: "█",
            block_empty: "░",
        }
    }
}

impl Default for Icons {
    fn default() -> (r: Self)
        ensures
            r == unicode_icons(),
    {
        Icons::unicode()
    }
}

} // verus!
