//! The game log's file name.

use vstd::prelude::*;
use vstd::string::*;
use crate::text::{decimal, u64_to_string};

verus! {

/// The name of the log file of a game started at the given date and time.
pub open spec fn log_file_name_spec(year: u64, month: u64, day: u64, hour: u64, minute: u64, second: u64) -> Seq<char> {
    "twm_log_"@ + decimal(year as nat) + "_"@ + decimal(month as nat) + "_"@ + decimal(day as nat)
        + "_"@ + decimal(hour as nat) + "_"@ + decimal(minute as nat) + "_"@ + decimal(second as nat)
}

/// The name of the log file of a game started at the given date and time.
pub fn log_file_name(year: u64, month: u64, day: u64, hour: u64, minute: u64, second: u64) -> (s: String)
    ensures
        s@ == log_file_name_spec(year, month, day, hour, minute, second),
{
    let mut s = String::from_str("twm_log_");
    s.append(u64_to_string(year).as_str());
    s.append("_");
    s.append(u64_to_string(month).as_str());
    s.append("_");
    s.append(u64_to_string(day).as_str());
    s.append("_");
    s.append(u64_to_string(hour).as_str());
    s.append("_");
    s.append(u64_to_string(minute).as_str());
    s.append("_");
    s.append(u64_to_string(second).as_str());
    s
}

} // verus!
