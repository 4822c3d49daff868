//! Small display helpers shared by the browser front end.

use vstd::prelude::*;

verus! {

/// How many distinct colours the browser cycles through when it marks
/// records of different sessions.
pub const SESSION_COLOR_COUNT: u64 = 14;

/// Picks the colour slot for a session: records of one session always get
/// the same slot, and slots repeat cyclically over session identifiers.
/// The human-readable age shown for a record: a just-written record
/// (anything phrased in seconds, or already `now`) displays as `now`,
/// anything older displays unchanged.
pub fn display_time(human: &str) -> (r: String)
    ensures
        (crate::text::contains_seq(human@, "seconds ago"@) || human@ == "now"@) ==> r@ == "now"@,
        !(crate::text::contains_seq(human@, "seconds ago"@) || human@ == "now"@) ==> r@ == human@,
{
    if crate::text::str_contains(human, "seconds ago") || crate::text::str_eq(human, "now") {
        String::from_str("now")
    } else {
        human.to_owned()
    }
}

pub fn session_color_index(session_id: i64) -> (idx: usize)
    requires
        session_id >= 0,
    ensures
        idx == session_id % (SESSION_COLOR_COUNT as i64),
        idx < SESSION_COLOR_COUNT,
{
    (session_id % (SESSION_COLOR_COUNT as i64)) as usize
}

} // verus!
