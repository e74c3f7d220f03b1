//! The watermarks of a stream made from a sequence of timed values.
//!
//! The source keeps the latest time seen and a watermark. A value earlier
//! than the watermark is dropped. Every `frequency`-th value (counting from
//! the first, dropped ones included) first moves the watermark to the latest
//! time minus the slack, read at the latest time's offset, and sends it.
//! Each value kept is then sent.
use crate::duration::Duration;
use crate::time::valid_date_time;
use crate::time::Time;
use vstd::prelude::*;

verus! {

/// The watermark state of a source.
pub struct SourceClock {
    latest: Time,
    watermark: Time,
    slack: Duration,
    frequency: usize,
}

/// What a source does with one value.
pub struct SourceStep {
    /// The watermark to send before the value, if any.
    pub watermark: Option<Time>,
    /// Whether the value is sent.
    pub send: bool,
}

impl SourceClock {
    #[verifier::type_invariant]
    spec fn inv(self) -> bool {
        &&& self.latest@ >= 0
        &&& self.watermark@ <= self.latest@
        &&& self.slack@ >= 0
        &&& self.frequency > 0
    }

    /// The latest time seen, in nanoseconds.
    pub closed spec fn latest(&self) -> int {
        self.latest@
    }

    /// The UTC offset, in seconds, at which the latest time is read.
    pub closed spec fn latest_offset(&self) -> int {
        self.latest.offset_seconds() as int
    }

    /// The current watermark, in nanoseconds.
    pub closed spec fn watermark(&self) -> int {
        self.watermark@
    }

    /// The slack, in nanoseconds.
    pub closed spec fn slack(&self) -> int {
        self.slack@
    }

    /// How often a watermark is sent, in values.
    pub closed spec fn frequency(&self) -> int {
        self.frequency as int
    }

    /// A source whose latest time and watermark are the Unix epoch, read in
    /// UTC. The frequency is nonzero and the slack nonnegative.
    pub fn new(frequency: usize, slack: Duration) -> (r: SourceClock)
        requires
            frequency > 0,
            slack@ >= 0,
        ensures
            r.latest() == 0,
            r.latest_offset() == 0,
            r.watermark() == 0,
            r.slack() == slack@,
            r.frequency() == frequency,
    {
        SourceClock { latest: Time::zero(), watermark: Time::zero(), slack, frequency }
    }

    /// What the source does with the value numbered `index` (from zero)
    /// whose time is `time`; `None`, with nothing changed, where the
    /// watermark it would send, the latest time moved back by the slack,
    /// falls outside the calendar at the latest time's offset.
    pub fn observe(&mut self, index: usize, time: Time) -> (r: Option<SourceStep>)
        ensures
            ({
                let kept = time@ >= old(self).watermark();
                let newer = time@ > old(self).latest();
                let latest = if newer { time@ } else { old(self).latest() };
                let offset = if newer { time.offset_seconds() as int } else { old(self).latest_offset() };
                let due = (index as int) % old(self).frequency() == 0;
                &&& (r is None <==> kept && due && !valid_date_time(latest - old(self).slack(), offset))
                &&& (r is None ==> *final(self) == *old(self))
                &&& (r matches Some(step) ==> {
                    &&& final(self).slack() == old(self).slack()
                    &&& final(self).frequency() == old(self).frequency()
                    &&& final(self).watermark() <= final(self).latest()
                    &&& old(self).watermark() <= old(self).latest() - old(self).slack() ==> old(self).watermark()
                        <= final(self).watermark()
                    &&& if !kept {
                        &&& step.watermark is None
                        &&& !step.send
                        &&& final(self).latest() == old(self).latest()
                        &&& final(self).latest_offset() == old(self).latest_offset()
                        &&& final(self).watermark() == old(self).watermark()
                    } else {
                        &&& step.send
                        &&& final(self).latest() == latest
                        &&& final(self).latest_offset() == offset
                        &&& if due {
                            &&& final(self).watermark() == latest - old(self).slack()
                            &&& step.watermark matches Some(w) && w@ == latest - old(self).slack()
                                && w.offset_seconds() == offset
                        } else {
                            &&& final(self).watermark() == old(self).watermark()
                            &&& step.watermark is None
                        }
                    }
                })
            }),
    {
        proof {
            use_type_invariant(&*self);
        }
        if time.is_before(&self.watermark) {
            return Some(SourceStep { watermark: None, send: false });
        }
        let latest = if self.latest.is_before(&time) {
            time
        } else {
            self.latest
        };
        if index % self.frequency == 0 {
            let n = latest.nanoseconds() - self.slack.nanoseconds();
            match Time::from_nanoseconds_at(n, latest.offset()) {
                Some(w) => {
                    self.latest = latest;
                    self.watermark = w;
                    Some(SourceStep { watermark: Some(w), send: true })
                },
                None => None,
            }
        } else {
            self.latest = latest;
            Some(SourceStep { watermark: None, send: true })
        }
    }
}

} // verus!
