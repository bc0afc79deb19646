//! What the arguments of the command line mean.

use crate::producer::RequestMethod;
use crate::text::usize_from_text;
use std::str::FromStr;
use vstd::prelude::*;

verus! {

/// How much is logged.
#[derive(Debug, Clone, Copy, PartialEq, Eq, Structural)]
pub enum Verbosity {
    Info,
    Debug,
    Trace,
}

/// How much is logged where more was asked for `occurrences` times.
pub fn verbosity(occurrences: u64) -> (res: Verbosity)
    ensures
        res == match occurrences {
            0 => Verbosity::Info,
            1 => Verbosity::Debug,
            _ => Verbosity::Trace,
        },
{
    match occurrences {
        0 => Verbosity::Info,
        1 => Verbosity::Debug,
        _ => Verbosity::Trace,
    }
}

/// A number of requests or of fetchers: one unless an argument gives it, and
/// nothing where the argument is not a number.
pub fn count(argument: Option<&str>) -> (res: Option<usize>)
    ensures
        res == match argument {
            Some(text) => crate::text::usize_value(text@, 10),
            None => Some(1usize),
        },
{
    match argument {
        Some(text) => usize_from_text(text, 10),
        None => Some(1),
    }
}

/// The method that is used unless an argument gives it.
pub const DEFAULT_METHOD: &'static str = "GET";

/// The request method: the one that the argument names in letters of either
/// case, or else `GET`.
pub fn method(argument: Option<&str>) -> (res: Result<RequestMethod, &'static str>)
    ensures
        ({
            let text = match argument {
                Some(text) => text@,
                None => DEFAULT_METHOD@,
            };
            let named = crate::producer::method_named(crate::text::uppercase(text));
            match res {
                Ok(method) => named == Some(method),
                Err(message) => named is None && message@ == "Invalid method"@,
            }
        }),
        argument is None ==> res == Ok::<RequestMethod, &'static str>(RequestMethod::Get),
{
    let text = match argument {
        Some(text) => text,
        None => DEFAULT_METHOD,
    };
    proof {
        reveal_strlit("GET");
        assert(crate::text::uppercase("GET"@) =~= "GET"@);
    }
    RequestMethod::from_str(text)
}

} // verus!
