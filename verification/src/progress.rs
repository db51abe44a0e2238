//! Progress accounting for long-running operations.
//!
//! The reporter tracks how many of `total` items have been processed and
//! formats a `current/total (percent%)` message. Printing the message to a
//! terminal is left to the caller.

use vstd::prelude::*;
use crate::text::{spec_decimal, usize_to_string, u128_to_string};

verus! {

/// Progress state for a long-running operation over `total` items.
pub struct ProgressReporter {
    /// Total number of items to process.
    pub total: usize,
    /// Current progress count; never exceeds `total`.
    pub current: usize,
    /// Label for the progress message.
    pub label: String,
}

/// The message `current/total (percent%)`, where percent is
/// `current * 100 / total` rounded down, and "0/0 (100%)" when `total` is 0.
pub open spec fn spec_progress_message(current: nat, total: nat) -> Seq<char> {
    if total == 0 {
        "0/0 (100%)"@
    } else {
        spec_decimal(current) + "/"@ + spec_decimal(total) + " ("@ + spec_decimal(
            current * 100 / total,
        ) + "%)"@
    }
}

impl ProgressReporter {
    /// Well-formedness: progress never exceeds the total.
    pub open spec fn wf(&self) -> bool {
        self.current <= self.total
    }

    /// Create a new progress reporter with no progress yet.
    pub fn new(total: usize, label: String) -> (r: Self)
        ensures
            r.total == total,
            r.current == 0,
            r.label@ == label@,
            r.wf(),
    {
        ProgressReporter { total, current: 0, label }
    }

    /// Increment progress by one; saturates at `total`.
    pub fn increment(&mut self)
        ensures
            final(self).total == old(self).total,
            final(self).label == old(self).label,
            final(self).current == if old(self).current < old(self).total {
                (old(self).current + 1) as int
            } else {
                old(self).current as int
            },
            old(self).wf() ==> final(self).wf(),
    {
        if self.current < self.total {
            self.current = self.current + 1;
        }
    }

    /// Set progress to `current`; values beyond `total` are ignored.
    pub fn set_progress(&mut self, current: usize)
        ensures
            final(self).total == old(self).total,
            final(self).label == old(self).label,
            final(self).current == if current <= old(self).total {
                current as int
            } else {
                old(self).current as int
            },
            old(self).wf() ==> final(self).wf(),
    {
        if current <= self.total {
            self.current = current;
        }
    }

    /// Format a `current/total (percent%)` message.
    pub fn format_progress_message(current: usize, total: usize) -> (r: String)
        ensures
            r@ == spec_progress_message(current as nat, total as nat),
    {
        if total == 0 {
            proof {
                reveal_strlit("0/0 (100%)");
            }
            return "0/0 (100%)".to_owned();
        }
        let percent: u128 = (current as u128) * 100 / (total as u128);
        let mut s = usize_to_string(current);
        s.append("/");
        let t = usize_to_string(total);
        s.append(t.as_str());
        s.append(" (");
        let p = u128_to_string(percent);
        s.append(p.as_str());
        s.append("%)");
        s
    }

    /// Format the reporter's own progress, prefixed with its label.
    pub fn format_progress(&self) -> (r: String)
        ensures
            r@ == self.label@ + ": "@ + spec_progress_message(
                self.current as nat,
                self.total as nat,
            ),
    {
        let mut s = self.label.clone();
        s.append(": ");
        let m = Self::format_progress_message(self.current, self.total);
        s.append(m.as_str());
        s
    }
}

} // verus!
