//! The log that outlives the terminal of a run.

use vstd::prelude::*;

use crate::text::compose::{join, joined};
use crate::text::numbers::{decimal, decimal_of};

verus! {

/// The line that sets one run off from the one before.
pub open spec fn header(
    program: Seq<char>,
    version: Seq<char>,
    unix_secs: u64,
    args: Seq<Seq<char>>,
) -> Seq<char> {
    "\n=== "@ + program + " "@ + version + " — run start, unix time "@ + decimal(
        unix_secs as nat,
    ) + " — args: "@ + (if args.len() == 0 {
        "(none)"@
    } else {
        join(args, " "@)
    }) + " ===\n"@
}

/// The line that sets one run off from the one before. It names the program, its
/// version, the time and the arguments.
pub fn run_header(program: &str, version: &str, unix_secs: u64, args: &[String]) -> (r: String)
    ensures
        r@ == header(program@, version@, unix_secs, args.deep_view()),
{
    let args: String = if args.len() == 0 {
        "(none)".to_owned()
    } else {
        joined(args, " ")
    };
    let mut s: String = "\n=== ".to_owned();
    s.append(program);
    s.append(" ");
    s.append(version);
    s.append(" — run start, unix time ");
    s.append(decimal_of(unix_secs).as_str());
    s.append(" — args: ");
    s.append(args.as_str());
    s.append(" ===\n");
    s
}

} // verus!
