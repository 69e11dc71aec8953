//! Frame timing: a timer marks the phases of a frame, and the frame
//! statistics decide which frames are slow enough to report and when a
//! summary is due.

use vstd::prelude::*;

verus! {

#[verifier::external_type_specification]
#[verifier::external_body]
pub struct ExInstant(std::time::Instant);

/// `Instant::now`: the clock's current reading; nothing is stated of it.
#[verifier::external_body]
fn instant_now() -> std::time::Instant {
    std::time::Instant::now()
}

/// `Instant::duration_since`: the time from `earlier` to `later` (zero if
/// `later` is not after it); nothing is stated of it.
#[verifier::external_body]
fn duration_since(later: &std::time::Instant, earlier: &std::time::Instant) -> std::time::Duration {
    later.duration_since(*earlier)
}

/// `Duration::as_nanos`; nothing is stated of it.
#[verifier::external_body]
fn duration_nanos(d: &std::time::Duration) -> u128 {
    d.as_nanos()
}

/// At most this many phases are recorded per frame.
pub const MAX_MARKS: usize = 6;

/// A summary is due after this many slow frames.
pub const SUMMARY_EVERY_N_SLOW: u64 = 50;

/// Counters over all frames.
#[derive(Clone, Copy, Debug, PartialEq, Eq, Structural)]
pub struct FrameStats {
    pub total: u64,
    pub slow: u64,
    pub max_nanos: u128,
    pub last_summary_slow: u64,
}

/// The counters are consistent: the summary mark never passes the slow
/// count, nor the slow count the total.
pub open spec fn stats_wf(s: FrameStats) -> bool {
    s.last_summary_slow <= s.slow <= s.total
}

/// One frame of `t` nanoseconds recorded: the new counters, and for a
/// frame at or over the threshold the slow count, the total and whether a
/// summary is due.
pub open spec fn spec_record(s: FrameStats, t: u128, threshold: u128) -> (FrameStats, Option<(u64, u64, bool)>) {
    let s1 = FrameStats { total: (s.total + 1) as u64, max_nanos: if t > s.max_nanos { t } else { s.max_nanos }, ..s };
    if t < threshold {
        (s1, None)
    } else {
        let slow = (s.slow + 1) as u64;
        let needs = slow - s.last_summary_slow >= SUMMARY_EVERY_N_SLOW;
        (
            FrameStats { slow, last_summary_slow: if needs { slow } else { s.last_summary_slow }, ..s1 },
            Some((slow, s1.total, needs)),
        )
    }
}

impl FrameStats {
    pub fn new() -> (s: Self)
        ensures
            s == (FrameStats { total: 0, slow: 0, max_nanos: 0, last_summary_slow: 0 }),
            stats_wf(s),
    {
        FrameStats { total: 0, slow: 0, max_nanos: 0, last_summary_slow: 0 }
    }

    /// Records a frame of `t` nanoseconds against `threshold`.
    pub fn record(&mut self, t: u128, threshold: u128) -> (r: Option<(u64, u64, bool)>)
        requires
            stats_wf(*old(self)),
            old(self).total < u64::MAX,
        ensures
            (*final(self), r) == spec_record(*old(self), t, threshold),
            stats_wf(*final(self)),
    {
        self.total = self.total + 1;
        if t > self.max_nanos {
            self.max_nanos = t;
        }
        if t < threshold {
            return None;
        }
        self.slow = self.slow + 1;
        let needs = self.slow - self.last_summary_slow >= SUMMARY_EVERY_N_SLOW;
        if needs {
            self.last_summary_slow = self.slow;
        }
        Some((self.slow, self.total, needs))
    }
}

/// What a slow frame reports: its kind, total time, the time of each
/// marked phase, the time after the last mark, and a summary of the
/// counters (frames, slow frames) when one is due.
pub struct FrameReport {
    pub kind: &'static str,
    pub total_nanos: u128,
    pub phases: Vec<(&'static str, u128)>,
    pub tail_nanos: Option<u128>,
    pub summary: Option<(u64, u64)>,
}

/// Times the phases of one frame.
pub struct FrameTimer {
    start: std::time::Instant,
    marks: Vec<(&'static str, std::time::Instant)>,
}

/// `a - b`, or 0 when `b` is past `a`.
pub open spec fn sat_sub(a: u128, b: u128) -> u128 {
    if a >= b { (a - b) as u128 } else { 0 }
}

/// The time of phase `i` of a frame whose marks fell `offs` nanoseconds
/// after its start: from the previous mark (the start, for the first)
/// to mark `i`.
pub open spec fn phase_time(offs: Seq<u128>, i: int) -> u128 {
    if i == 0 { offs[0] } else { sat_sub(offs[i], offs[i - 1]) }
}

/// The time from the last mark to the end of the frame (`end` nanoseconds
/// after its start); none when nothing was marked.
pub open spec fn tail_time(offs: Seq<u128>, end: u128) -> Option<u128> {
    if offs.len() == 0 { None } else { Some(sat_sub(end, offs.last())) }
}

/// The sum of the first `k` phase times.
pub open spec fn phases_sum(offs: Seq<u128>, k: int) -> int
    decreases k,
{
    if k <= 0 { 0 } else { phases_sum(offs, k - 1) + phase_time(offs, k - 1) }
}

/// The phase times and the tail of a frame whose marks fell `offs`
/// nanoseconds after its start and which ended `end` nanoseconds after it.
pub fn phase_times(offs: &[u128], end: u128) -> (r: (Vec<u128>, Option<u128>))
    ensures
        r.0@.len() == offs@.len(),
        forall|i: int| 0 <= i < offs@.len() ==> r.0@[i] == phase_time(offs@, i),
        r.1 == tail_time(offs@, end),
{
    let mut times: Vec<u128> = Vec::new();
    let mut i: usize = 0;
    while i < offs.len()
        invariant
            i <= offs@.len(),
            times@.len() == i,
            forall|k: int| 0 <= k < i ==> times@[k] == phase_time(offs@, k),
        decreases offs@.len() - i,
    {
        let t = if i == 0 {
            offs[0]
        } else if offs[i] >= offs[i - 1] {
            offs[i] - offs[i - 1]
        } else {
            0
        };
        times.push(t);
        i = i + 1;
    }
    let tail = if offs.len() == 0 {
        None
    } else {
        let last = offs[offs.len() - 1];
        Some(if end >= last { end - last } else { 0 })
    };
    (times, tail)
}

/// On a clock that never runs backwards (marks in order, none after the
/// end), the phases and the tail of a frame with at least one mark add up
/// to its total time.
pub proof fn lemma_phases_add_up(offs: Seq<u128>, end: u128)
    requires
        offs.len() > 0,
        forall|i: int, j: int| 0 <= i <= j < offs.len() ==> offs[i] <= offs[j],
        offs.last() <= end,
    ensures
        phases_sum(offs, offs.len() as int) + tail_time(offs, end)->0 == end,
{
    lemma_phases_sum_prefix(offs, offs.len() as int);
}

proof fn lemma_phases_sum_prefix(offs: Seq<u128>, k: int)
    requires
        0 < k <= offs.len(),
        forall|i: int, j: int| 0 <= i <= j < offs.len() ==> offs[i] <= offs[j],
    ensures
        phases_sum(offs, k) == offs[k - 1],
    decreases k,
{
    if k > 1 {
        lemma_phases_sum_prefix(offs, k - 1);
        assert(offs[k - 2] <= offs[k - 1]);
    } else {
        assert(phases_sum(offs, 0) == 0);
    }
}

pub open spec fn report_summary(r: Option<(u64, u64, bool)>) -> Option<(u64, u64)> {
    match r {
        Some((slow, total, needs)) => if needs { Some((total, slow)) } else { None },
        None => None,
    }
}

impl FrameTimer {
    /// The labels of the phases marked so far.
    pub closed spec fn labels(&self) -> Seq<&'static str> {
        Seq::new(self.marks@.len(), |i: int| self.marks@[i].0)
    }

    /// A timer started now, with no phase marked.
    pub fn new() -> (t: Self)
        ensures
            t.labels() == Seq::<&'static str>::empty(),
    {
        let now = instant_now();
        let t = FrameTimer { start: now, marks: Vec::new() };
        assert(t.labels() =~= Seq::<&'static str>::empty());
        t
    }

    /// Ends phase `label` now; past the sixth phase marks are ignored.
    pub fn mark(&mut self, label: &'static str)
        ensures
            final(self).labels() == if old(self).labels().len() < MAX_MARKS {
                old(self).labels().push(label)
            } else {
                old(self).labels()
            },
    {
        if self.marks.len() < MAX_MARKS {
            let now = instant_now();
            self.marks.push((label, now));
            assert(self.labels() =~= old(self).labels().push(label));
        }
    }

    /// Ends the frame: records it in `stats`, and for a slow frame (at or
    /// over `threshold` nanoseconds) returns what to report. The clock
    /// readings are not known here: whatever they are (the total `t` and
    /// the marks' times `offs` since the start), the counters change as
    /// `spec_record` says, and the report holds each phase's time since
    /// the previous mark and the time after the last mark.
    pub fn finish(self, kind: &'static str, stats: &mut FrameStats, threshold: u128) -> (r: Option<FrameReport>)
        requires
            stats_wf(*old(stats)),
            old(stats).total < u64::MAX,
        ensures
            stats_wf(*final(stats)),
            exists|t: u128, offs: Seq<u128>|
                #![trigger spec_record(*old(stats), t, threshold), tail_time(offs, t)]
                {
                    let (s2, out) = spec_record(*old(stats), t, threshold);
                    &&& offs.len() == self.labels().len()
                    &&& *final(stats) == s2
                    &&& (r is None <==> out is None)
                    &&& (r matches Some(rep) ==> {
                        &&& rep.kind == kind
                        &&& rep.total_nanos == t
                        &&& rep.phases@.len() == self.labels().len()
                        &&& (forall|i: int| 0 <= i < rep.phases@.len() ==> (#[trigger] rep.phases@[i]).0 == self.labels()[i]
                            && rep.phases@[i].1 == phase_time(offs, i))
                        &&& rep.tail_nanos == tail_time(offs, t)
                        &&& rep.summary == report_summary(out)
                    })
                },
    {
        let end = instant_now();
        let total_d = duration_since(&end, &self.start);
        let total = duration_nanos(&total_d);
        let mut offs: Vec<u128> = Vec::new();
        let mut i: usize = 0;
        while i < self.marks.len()
            invariant
                i <= self.marks@.len(),
                offs@.len() == i,
            decreases self.marks@.len() - i,
        {
            let d = duration_since(&self.marks[i].1, &self.start);
            offs.push(duration_nanos(&d));
            i = i + 1;
        }
        let out = stats.record(total, threshold);
        assert(spec_record(*old(stats), total, threshold) == (*stats, out));
        assert(tail_time(offs@, total) == tail_time(offs@, total));
        let (slow, total_count, needs) = match out {
            None => return None,
            Some(o) => o,
        };
        let (times, tail) = phase_times(offs.as_slice(), total);
        let mut phases: Vec<(&'static str, u128)> = Vec::new();
        let mut k: usize = 0;
        while k < self.marks.len()
            invariant
                k <= self.marks@.len(),
                times@.len() == self.marks@.len(),
                offs@.len() == self.marks@.len(),
                phases@.len() == k,
                forall|j: int| 0 <= j < offs@.len() ==> times@[j] == phase_time(offs@, j),
                forall|j: int| 0 <= j < k ==> (#[trigger] phases@[j]).0 == self.labels()[j]
                    && phases@[j].1 == phase_time(offs@, j),
            decreases self.marks@.len() - k,
        {
            phases.push((self.marks[k].0, times[k]));
            k = k + 1;
        }
        let summary = if needs { Some((total_count, slow)) } else { None };
        Some(FrameReport { kind, total_nanos: total, phases, tail_nanos: tail, summary })
    }
}

/// Recording a frame counts it and keeps the longest time seen; a frame
/// at or over the threshold also counts as slow and is reported with the
/// slow and total counts, and a summary is due once 50 slow frames came
/// since the last one, after which the count restarts from there. A frame
/// under the threshold is not reported.
pub proof fn lemma_record(s: FrameStats, t: u128, threshold: u128)
    requires
        stats_wf(s),
        s.total < u64::MAX,
    ensures
        ({
            let (s2, out) = spec_record(s, t, threshold);
            &&& s2.total == s.total + 1
            &&& s2.max_nanos == (if t > s.max_nanos { t } else { s.max_nanos })
            &&& t < threshold ==> out is None && s2.slow == s.slow && s2.last_summary_slow == s.last_summary_slow
            &&& t >= threshold ==> {
                let due = s.slow + 1 - s.last_summary_slow >= 50;
                &&& s2.slow == s.slow + 1
                &&& out == Some((s2.slow, s2.total, due))
                &&& s2.last_summary_slow == (if due { s2.slow } else { s.last_summary_slow })
            }
        }),
{
}

} // verus!
