//! The runner's decisions: how a VM exit ends or continues a test, whether
//! the test passed, and the tally over all tests.
use vstd::prelude::*;

use crate::ioexit::{IoHandleError, IoHandleStatus};

verus! {

/// Process exit status when some test failed.
pub const FAILURE_EXIT_CODE: i32 = 101;

/// Why the vCPU stopped, as far as the runner cares.
#[derive(Debug, Copy, Clone)]
pub enum VmExit {
    /// A port access, already classified by `handle_ioexit`.
    Io(Result<IoHandleStatus, IoHandleError>),
    /// The guest shut down (a triple fault).
    Shutdown,
    /// Any other exit reason.
    Other,
}

/// The state of one test run.
#[derive(Debug, PartialEq, Eq, Structural, Copy, Clone)]
pub struct RunState {
    /// The run is over.
    pub done: bool,
    /// The test panicked, or failed in a way that counts as a panic.
    pub panicked: bool,
}

/// The run state after `exit`, from one that is not over yet (and so has
/// not panicked).
pub open spec fn spec_on_exit(exit: VmExit) -> RunState {
    match exit {
        VmExit::Io(Ok(IoHandleStatus::Handled)) => RunState { done: false, panicked: false },
        VmExit::Io(Ok(IoHandleStatus::TestSuccessful)) => RunState { done: true, panicked: false },
        VmExit::Io(Ok(IoHandleStatus::TestPanic(_))) => RunState { done: true, panicked: true },
        VmExit::Io(Err(_)) => RunState { done: true, panicked: true },
        VmExit::Shutdown => RunState { done: true, panicked: true },
        VmExit::Other => RunState { done: true, panicked: true },
    }
}

impl RunState {
    /// A run that has not started.
    pub fn new() -> (r: RunState)
        ensures
            r == (RunState { done: false, panicked: false }),
    {
        RunState { done: false, panicked: false }
    }

    /// Account for one exit of the vCPU.
    pub fn on_exit(&mut self, exit: VmExit)
        requires
            !old(self).done,
            !old(self).panicked,
        ensures
            *final(self) == spec_on_exit(exit),
    {
        match exit {
            VmExit::Io(Ok(IoHandleStatus::Handled)) => {},
            VmExit::Io(Ok(IoHandleStatus::TestSuccessful)) => {
                self.done = true;
            },
            VmExit::Io(Ok(IoHandleStatus::TestPanic(_))) | VmExit::Io(Err(_)) | VmExit::Shutdown
            | VmExit::Other => {
                self.done = true;
                self.panicked = true;
            },
        }
    }
}

/// A test passes when it panicked exactly if it was declared to.
pub fn test_passed(panicked: bool, should_panic: bool) -> (r: bool)
    ensures
        r == (panicked == should_panic),
{
    panicked == should_panic
}

/// The tally of a test run.
#[derive(Debug, PartialEq, Eq, Structural, Copy, Clone)]
pub struct Summary {
    pub passed: u64,
    pub failed: u64,
    pub ignored: u64,
}

impl Summary {
    pub fn new() -> (r: Summary)
        ensures
            r == (Summary { passed: 0, failed: 0, ignored: 0 }),
    {
        Summary { passed: 0, failed: 0, ignored: 0 }
    }

    /// Count a test that was not run.
    pub fn record_ignored(&mut self)
        requires
            old(self).ignored < u64::MAX,
        ensures
            *final(self) == (Summary { ignored: (old(self).ignored + 1) as u64, ..*old(self) }),
    {
        self.ignored = self.ignored + 1;
    }

    /// Count a test that ran, and say whether it passed.
    pub fn record(&mut self, panicked: bool, should_panic: bool) -> (passed: bool)
        requires
            old(self).passed < u64::MAX,
            old(self).failed < u64::MAX,
        ensures
            passed == (panicked == should_panic),
            passed ==> *final(self) == (Summary { passed: (old(self).passed + 1) as u64, ..*old(self) }),
            !passed ==> *final(self) == (Summary { failed: (old(self).failed + 1) as u64, ..*old(self) }),
    {
        if test_passed(panicked, should_panic) {
            self.passed = self.passed + 1;
            true
        } else {
            self.failed = self.failed + 1;
            false
        }
    }

    /// Count a test that could not be staged or run: it failed.
    pub fn record_failure(&mut self)
        requires
            old(self).failed < u64::MAX,
        ensures
            *final(self) == (Summary { failed: (old(self).failed + 1) as u64, ..*old(self) }),
    {
        self.failed = self.failed + 1;
    }

    /// The whole run succeeded: no test failed.
    pub fn ok(&self) -> (r: bool)
        ensures
            r == (self.failed == 0),
    {
        self.failed == 0
    }

    /// The process exit status for this tally: 0, or 101 when a test failed.
    pub fn exit_code(&self) -> (r: i32)
        ensures
            r == (if self.failed == 0 { 0i32 } else { FAILURE_EXIT_CODE }),
    {
        if self.failed == 0 {
            0
        } else {
            FAILURE_EXIT_CODE
        }
    }
}

} // verus!
