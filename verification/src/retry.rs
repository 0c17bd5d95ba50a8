//! How a failure to read a path is resolved: again, skip this one, or
//! skip this one and every later one without asking.

use vstd::prelude::*;

verus! {

/// What the operator wants done about a path that could not be read.
#[derive(Clone, Copy, Debug, PartialEq, Eq, Structural)]
pub enum RetryDecision {
    /// Attempt the same operation again.
    Retry,
    /// Give up the path.
    SkipOne,
    /// Give up the path, and every path that fails later without asking.
    SkipAllFuture,
}

/// The decision that the first key of the operator's answer stands for:
/// `a` for skipping all failures, `i` for skipping this one, in either
/// case of the letter; any other key, and no key at all, for a retry.
pub open spec fn decision_for(key: Option<u8>) -> RetryDecision {
    match key {
        Some(k) => if k == 0x61 || k == 0x41 {
            RetryDecision::SkipAllFuture
        } else if k == 0x69 || k == 0x49 {
            RetryDecision::SkipOne
        } else {
            RetryDecision::Retry
        },
        None => RetryDecision::Retry,
    }
}

impl RetryDecision {
    /// Reads the operator's decision from the first key of the answer.
    pub fn from_key(key: Option<u8>) -> (decision: RetryDecision)
        ensures
            decision == decision_for(key),
    {
        match key {
            Some(k) => {
                if k == 0x61 || k == 0x41 {
                    RetryDecision::SkipAllFuture
                } else if k == 0x69 || k == 0x49 {
                    RetryDecision::SkipOne
                } else {
                    RetryDecision::Retry
                }
            },
            None => RetryDecision::Retry,
        }
    }
}

/// The run-wide memory of the failure protocol: whether the operator has
/// chosen to skip all failures. Its view is that flag, which never goes
/// back to `false`.
pub struct FailurePolicy {
    skip_all: bool,
}

impl View for FailurePolicy {
    type V = bool;

    closed spec fn view(&self) -> bool {
        self.skip_all
    }
}

impl FailurePolicy {
    /// The policy at the start of a run; `skip_all` is the configured
    /// choice to skip unreadable paths without asking.
    pub fn new(skip_all: bool) -> (policy: Self)
        ensures
            policy@ == skip_all,
    {
        FailurePolicy { skip_all }
    }

    /// Whether failures are skipped without asking.
    pub fn skips_all(&self) -> (b: bool)
        ensures
            b == self@,
    {
        self.skip_all
    }

    /// Takes in the operator's answer to one failure, and says whether
    /// the path is given up: it is unless the answer is to retry. The
    /// answer to skip all failures is remembered.
    pub fn resolve(&mut self, answer: RetryDecision) -> (abandon: bool)
        ensures
            abandon == (answer != RetryDecision::Retry),
            final(self)@ == (old(self)@ || answer == RetryDecision::SkipAllFuture),
    {
        match answer {
            RetryDecision::Retry => false,
            RetryDecision::SkipOne => true,
            RetryDecision::SkipAllFuture => {
                self.skip_all = true;
                true
            },
        }
    }
}

/// Resolves one failure, and says whether the path is given up. With the
/// skip-all choice made the operator is not asked, so `ask` need not even
/// be callable; otherwise `ask` is called once, and its answer taken in.
pub fn failed_access<F: FnOnce() -> RetryDecision>(policy: &mut FailurePolicy, ask: F) -> (abandon:
    bool)
    requires
        !old(policy)@ ==> call_requires(ask, ()),
    ensures
        old(policy)@ ==> abandon && final(policy)@,
        !old(policy)@ ==> exists|answer: RetryDecision|
            call_ensures(ask, (), answer) && abandon == (answer != RetryDecision::Retry)
                && final(policy)@ == (answer == RetryDecision::SkipAllFuture),
{
    if policy.skips_all() {
        return true;
    }
    let answer = ask();
    policy.resolve(answer)
}

} // verus!
