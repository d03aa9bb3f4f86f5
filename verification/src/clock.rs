//! The sources of what no input determines: the current time and fresh identifiers.

use crate::calendar::{moment_at, Moment};
use vstd::prelude::*;

verus! {

/// Reads the clock with `chrono::Utc::now` and hands back the seconds since the start of 1970
/// (`DateTime::timestamp`). Nothing is promised of the number. `chrono` stops the program
/// where the system clock stands before 1970.
#[verifier::external_body]
fn utc_now_seconds() -> (r: i64) {
    chrono::Utc::now().timestamp()
}

/// Draws a random identifier with `uuid::Uuid::new_v4` and writes it as text. Nothing is
/// promised of the text. `uuid` stops the program where the system has no random bytes.
#[verifier::external_body]
pub(crate) fn random_identifier() -> (r: String) {
    uuid::Uuid::new_v4().to_string()
}

/// As many fresh identifiers as asked for: random UUIDs, of which nothing else is promised.
pub fn fresh_ids(count: usize) -> (r: Vec<String>)
    ensures
        r.len() == count,
{
    let mut out: Vec<String> = Vec::new();
    while out.len() < count
        invariant
            out.len() <= count,
        decreases count - out.len(),
    {
        out.push(random_identifier());
    }
    out
}

impl Moment {
    /// The moment at the instant that the system clock shows; none only where that has none.
    pub fn now() -> (r: Option<Moment>)
        ensures
            exists|seconds: i64| r.deep_view() == #[trigger] moment_at(seconds as int),
    {
        let seconds = utc_now_seconds();
        let r = Moment::at(seconds);
        assert(r.deep_view() == moment_at(seconds as int));
        r
    }
}

} // verus!
