use crate::text::{append, decimal, decimal_text, joined};
use vstd::prelude::*;

verus! {

/// How often, in milliseconds, a progress line is written while verification runs.
pub const INTERVAL_MS: u64 = 2000;

/// How far verification has come.
#[derive(Clone, Copy, Debug)]
pub struct Progress {
    pub case_index: usize,
    pub cases: usize,
    pub actions_executed: usize,
    pub action_budget: usize,
    pub verified: usize,
    pub total: usize,
    pub shrinking: bool,
}

/// The progress report of a long verification: at most one line per interval, one line when
/// a counterexample is being reduced, and a closing line with where it ended.
pub struct Heartbeat {
    pub output: String,
    pub interval: u64,
    pub last: Option<u64>,
    pub latest: Option<Progress>,
    pub shrinking_announced: bool,
}

/// The line that reports `p`.
pub open spec fn progress_text(p: Progress) -> Seq<char> {
    decimal(p.verified as nat) + "/"@ + decimal(p.total as nat) + " obligations   "@ + decimal(
        p.actions_executed as nat,
    ) + "/"@ + decimal(p.action_budget as nat) + " actions"@
}

/// The time from `last` to `now`, or none when `now` is earlier.
pub open spec fn since(now: u64, last: u64) -> int {
    if now >= last {
        now - last
    } else {
        0
    }
}

impl Heartbeat {
    /// A heartbeat that writes a progress line at most every `interval` milliseconds.
    pub fn new(interval: u64) -> (h: Heartbeat)
        ensures
            h.output@ == Seq::<char>::empty(),
            h.interval == interval,
            h.last is None,
            h.latest is None,
            !h.shrinking_announced,
    {
        Heartbeat { output: String::new(), interval, last: None, latest: None, shrinking_announced: false }
    }

    /// Writes the header that names what is being verified.
    pub fn header(&mut self, structure: &str, behavior: &str)
        ensures
            final(self).output@ == old(self).output@
                + "BlaBla finish\n\nCOMPLETION GATE: VERIFYING\n\nStructure:\n  "@ + structure@
                + "\n\nBehavior:\n  "@ + behavior@ + "\n"@,
            final(self).interval == old(self).interval,
            final(self).last == old(self).last,
            final(self).latest == old(self).latest,
            final(self).shrinking_announced == old(self).shrinking_announced,
    {
        append(&mut self.output, "BlaBla finish\n\nCOMPLETION GATE: VERIFYING\n\nStructure:\n  ");
        append(&mut self.output, structure);
        append(&mut self.output, "\n\nBehavior:\n  ");
        append(&mut self.output, behavior);
        append(&mut self.output, "\n");
    }

    /// The line that reports `progress`.
    pub fn progress_line(progress: &Progress) -> (s: String)
        ensures
            s@ == progress_text(*progress),
    {
        let mut s = decimal_text(progress.verified as u64);
        append(&mut s, "/");
        append(&mut s, decimal_text(progress.total as u64).as_str());
        append(&mut s, " obligations   ");
        append(&mut s, decimal_text(progress.actions_executed as u64).as_str());
        append(&mut s, "/");
        append(&mut s, decimal_text(progress.action_budget as u64).as_str());
        append(&mut s, " actions");
        s
    }

    fn line(&mut self, text: &str)
        ensures
            final(self).output@ == old(self).output@ + "  "@ + text@ + "\n"@,
            final(self).interval == old(self).interval,
            final(self).last == old(self).last,
            final(self).latest == old(self).latest,
            final(self).shrinking_announced == old(self).shrinking_announced,
    {
        append(&mut self.output, "  ");
        append(&mut self.output, text);
        append(&mut self.output, "\n");
    }

    /// Takes in `progress` at time `now` (milliseconds): while a counterexample is reduced,
    /// says so once; otherwise writes a progress line when none was written yet or the
    /// interval has passed since the last one.
    pub fn observe(&mut self, progress: &Progress, now: u64)
        ensures
            final(self).latest == Some(*progress),
            final(self).interval == old(self).interval,
            progress.shrinking && !old(self).shrinking_announced ==> final(self).shrinking_announced && final(self).output@
                == old(self).output@ + "  "@ + "violation found after "@ + decimal(progress.actions_executed as nat)
                + " actions; confirming and reducing the counterexample"@ + "\n"@ && final(self).last
                == old(self).last,
            progress.shrinking && old(self).shrinking_announced ==> final(self).shrinking_announced && final(self).output@
                == old(self).output@ && final(self).last == old(self).last,
            !progress.shrinking ==> final(self).shrinking_announced == old(self).shrinking_announced && if (match old(
                self,
            ).last {
                None => true,
                Some(last) => since(now, last) >= old(self).interval,
            }) {
                final(self).output@ == old(self).output@ + "  "@ + progress_text(*progress) + "\n"@
                    && final(self).last == Some(now)
            } else {
                final(self).output@ == old(self).output@ && final(self).last == old(
                    self,
                ).last
            },
    {
        self.latest = Some(*progress);
        if progress.shrinking {
            if !self.shrinking_announced {
                self.shrinking_announced = true;
                let mut text = joined("violation found after ", decimal_text(progress.actions_executed as u64).as_str());
                append(&mut text, " actions; confirming and reducing the counterexample");
                self.line(text.as_str());
            }
            return;
        }
        let due = match self.last {
            None => true,
            Some(last) => {
                let elapsed = if now >= last {
                    now - last
                } else {
                    0
                };
                elapsed >= self.interval
            },
        };
        if due {
            self.last = Some(now);
            let text = Self::progress_line(progress);
            self.line(text.as_str());
        }
    }

    /// Closes the report: the last progress taken in, then a blank line.
    pub fn finish(&mut self)
        ensures
            final(self).output@ == old(self).output@ + match old(self).latest {
                Some(p) => "  "@ + progress_text(p) + "\n"@,
                None => Seq::<char>::empty(),
            } + "\n"@,
    {
        match self.latest {
            Some(progress) => {
                let text = Self::progress_line(&progress);
                self.line(text.as_str());
            },
            None => {},
        }
        append(&mut self.output, "\n");
    }
}

} // verus!
