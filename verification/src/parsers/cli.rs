use vstd::prelude::*;

use crate::common::text::{parse_usize_str, spec_parse_usize};
use vstd::string::StringExecFns;

verus! {

/// Run configuration for the planner: grid selection, loop bounds and
/// starting positions. Argument handling and defaulting live outside the
/// core; the core only reads these plain values.
pub struct Cli {
    /// Grid size, used as the planner's ray length.
    pub size: usize,
    /// Discrete time steps the orchestration loop may run.
    pub time_steps: usize,
    /// Maximum wall-clock duration in milliseconds.
    pub max_duration: usize,
    /// Starting row of each agent.
    pub pos_x: Vec<usize>,
    /// Starting column of each agent.
    pub pos_y: Vec<usize>,
    /// Name of the source grid.
    pub grid: String,
}

/// Parses one starting-position coordinate: an optional leading plus sign
/// and a nonempty run of decimal digits naming a value that fits the
/// platform word.
pub fn parse_position(s: &str) -> (r: Result<usize, String>)
    ensures
        match r {
            Ok(v) => spec_parse_usize(s@) == Some(v),
            Err(e) => spec_parse_usize(s@) is None && e@ == "Invalid number: "@ + s@,
        },
{
    match parse_usize_str(s) {
        Some(v) => Ok(v),
        None => {
            let mut e = String::from_str("Invalid number: ");
            e.append(s);
            Err(e)
        },
    }
}

} // verus!
