//! `pkgradar version`.
use vstd::prelude::*;
use vstd::string::StringExecFns;

use crate::client::DEFAULT_BASE_URL;
use crate::cmd::{printed, push_line, Line, Outcome, Printed};

verus! {

/// The version of the program.
pub const VERSION: &'static str = "0.1.0";

/// The address of the API: the one that the environment configures, or else the default.
pub open spec fn resolved(configured: Option<String>) -> Seq<char> {
    match configured {
        Some(address) => address@,
        None => DEFAULT_BASE_URL@,
    }
}

/// An address that is configured wins over the default.
pub proof fn law_configured_address_wins(address: String)
    ensures
        resolved(Some(address)) == address@,
        resolved(None) == DEFAULT_BASE_URL@,
{
}

/// Prints the version of the program and the address of the API.
pub fn run(configured: Option<String>) -> (r: Outcome)
    ensures
        printed(r.lines@) == seq![
            Printed::Stdout("pkgradar "@ + VERSION@),
            Printed::Stdout("api: "@ + resolved(configured)),
        ],
        r.code == 0,
{
    let mut first: String = "pkgradar ".to_owned();
    first.append(VERSION);
    let mut second: String = "api: ".to_owned();
    match &configured {
        Some(address) => second.append(address.as_str()),
        None => second.append(DEFAULT_BASE_URL),
    }
    let mut lines: Vec<Line> = Vec::new();
    assert(printed(lines@) =~= Seq::empty());
    push_line(&mut lines, Line::Stdout(first));
    push_line(&mut lines, Line::Stdout(second));
    Outcome { lines, code: 0 }
}

} // verus!
