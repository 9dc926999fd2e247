use vstd::prelude::*;

verus! {

/// Outcome of one sandboxed execution, as reported by the isolation tool.
#[derive(Clone, Copy, Debug, PartialEq, Eq, Structural)]
pub enum RunVerdict {
    CompilationError,
    VerdictOK,
    VerdictTLE,
    VerdictMLE,
    VerdictRE,
    VerdictXX,
    VerdictSG,
}

impl Default for RunVerdict {
    fn default() -> (r: Self)
        ensures
            r == RunVerdict::VerdictOK,
    {
        RunVerdict::VerdictOK
    }
}

/// The human-readable name under which a verdict is reported.
pub open spec fn status_name(verdict: RunVerdict) -> Seq<char> {
    match verdict {
        RunVerdict::VerdictOK => "Accepted"@,
        RunVerdict::VerdictTLE => "Time Limit Exceeded"@,
        RunVerdict::VerdictMLE => "Memory Limit Exceeded"@,
        RunVerdict::VerdictRE => "Runtime Error"@,
        RunVerdict::VerdictSG => "Signal Error"@,
        RunVerdict::VerdictXX => "Internal Error"@,
        RunVerdict::CompilationError => ""@,
    }
}

/// Reports a verdict by its name.
pub fn get_status(verdict: RunVerdict) -> (r: String)
    ensures
        r@ == status_name(verdict),
{
    match verdict {
        RunVerdict::VerdictOK => String::from_str("Accepted"),
        RunVerdict::VerdictTLE => String::from_str("Time Limit Exceeded"),
        RunVerdict::VerdictMLE => String::from_str("Memory Limit Exceeded"),
        RunVerdict::VerdictRE => String::from_str("Runtime Error"),
        RunVerdict::VerdictSG => String::from_str("Signal Error"),
        RunVerdict::VerdictXX => String::from_str("Internal Error"),
        RunVerdict::CompilationError => String::from_str(""),
    }
}

} // verus!
