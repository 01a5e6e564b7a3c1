//! What a shutdown signal does. The flag is read at operation boundaries.

use vstd::prelude::*;

verus! {

/// The exit code of a run that a second signal cuts short: 128 + SIGINT, as
/// for an unhandled ^C.
pub const EXIT_INTERRUPTED: i32 = 130;

/// Whether the user has asked the run to stop.
pub struct ShutdownFlag {
    requested: bool,
}

impl ShutdownFlag {
    pub closed spec fn is_requested(self) -> bool {
        self.requested
    }

    /// A flag that nothing has raised.
    pub fn new() -> (r: Self)
        ensures
            !r.is_requested(),
    {
        ShutdownFlag { requested: false }
    }

    /// What a signal is answered.
    pub closed spec fn answer(self) -> Option<i32> {
        if self.requested {
            Some(EXIT_INTERRUPTED)
        } else {
            None
        }
    }

    /// Notes a signal. The first one asks the run to stop at the next boundary;
    /// each later one gives the code with which to quit at once.
    pub fn signal(&mut self) -> (r: Option<i32>)
        ensures
            final(self).is_requested(),
            r == old(self).answer(),
            old(self).is_requested() ==> r == Some(EXIT_INTERRUPTED),
            !old(self).is_requested() ==> r is None,
    {
        if self.requested {
            Some(EXIT_INTERRUPTED)
        } else {
            self.requested = true;
            None
        }
    }
}

/// Whether a stop was asked for.
pub fn requested(flag: &ShutdownFlag) -> (r: bool)
    ensures
        r == flag.is_requested(),
{
    flag.requested
}

/// The first signal lets the run come to its end; each one behind it ends the
/// run at once, with 130.
pub proof fn law_second_signal_ends_the_run(flag: ShutdownFlag)
    ensures
        flag.answer() is None <==> !flag.is_requested(),
        flag.answer() is Some ==> flag.answer() == Some(130i32),
{
}

} // verus!
