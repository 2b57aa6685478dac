use vstd::prelude::*;

verus! {

/// How a run that prints links ends.
#[derive(Copy, Clone, Debug, PartialEq, Eq, Structural)]
pub enum ExitCode {
    /// Every link was written
    Success,
    /// Writing the output failed
    UnexpectedFailure,
}

/// What printing links does after writing one: go on (`None`), or stop with
/// an exit code. `write_failure` is `None` when the write succeeded, else
/// whether it failed because the reader closed the pipe, which is no error.
pub fn after_write(write_failure: Option<bool>) -> (r: Option<ExitCode>)
    ensures
        r == (match write_failure {
            Some(false) => Some(ExitCode::UnexpectedFailure),
            _ => None::<ExitCode>,
        }),
{
    match write_failure {
        Some(false) => Some(ExitCode::UnexpectedFailure),
        _ => None,
    }
}

} // verus!
