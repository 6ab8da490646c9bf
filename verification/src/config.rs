//! What the user has set: the constants of the build, and the two settings
//! that can change while the program runs.

use crate::dir::SortType;
use vstd::prelude::*;

verus! {

/// The rows that stay visible above and below the cursor while the listing scrolls.
pub const SCROLL_OFF: u16 = 6;

/// The form in which the time of the last change of an entry is written:
/// the day of the week, the date, and the time of day.
pub const TIME_FORMAT: &'static str = "%a %d/%m/%Y %X";

/// Whether a search passes over the difference between capital and small ASCII letters.
pub const CASE_INSENSITIVE: bool = true;

/// The settings that every snapshot follows: whether hidden entries are left
/// out, and how the entries are ordered.
#[derive(Debug, Copy, Clone)]
pub struct Settings {
    pub hidden: bool,
    pub sort_type: SortType,
}

impl Settings {
    /// Hidden entries are left out, and names are in natural order.
    pub fn new() -> (r: Settings)
        ensures
            r.hidden,
            r.sort_type == SortType::Natural,
    {
        Settings { hidden: true, sort_type: SortType::Natural }
    }
}

} // verus!
