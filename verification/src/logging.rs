use std::time::Instant;

use vstd::prelude::*;

verus! {

#[verifier::external_type_specification]
#[verifier::external_body]
pub struct ExInstant(Instant);

/// `Instant::now`: a reading of the monotonic clock. It depends on the time,
/// so nothing is stated of it.
#[verifier::external_body]
fn instant_now() -> (r: Instant) {
    Instant::now()
}

/// `Instant::elapsed` on `start`, in whole nanoseconds (`Duration::as_nanos`).
/// It depends on the time, so all that is stated is that it is the length of
/// a `Duration`, which is at most `MAX_DURATION_NANOS`.
#[verifier::external_body]
fn elapsed_nanos(start: &Instant) -> (r: u128)
    ensures
        r <= MAX_DURATION_NANOS,
{
    start.elapsed().as_nanos()
}

/// The largest span a `Duration` holds (`u64::MAX` seconds and 999999999
/// nanoseconds), in nanoseconds.
pub const MAX_DURATION_NANOS: u128 = 18_446_744_073_709_551_615_999_999_999u128;

/// The sum of the durations of a list of sections.
pub open spec fn nanos_sum(s: Seq<(String, u128)>) -> int
    decreases s.len(),
{
    if s.len() == 0 {
        0
    } else {
        nanos_sum(s.drop_last()) + s.last().1
    }
}

/// How long each named section of one frame took, in nanoseconds, in the
/// order the sections ended.
pub struct FrameTimestamps {
    start: Instant,
    sections: Vec<(String, u128)>,
}

impl FrameTimestamps {
    /// The recorded sections.
    pub closed spec fn sections_spec(&self) -> Seq<(String, u128)> {
        self.sections@
    }

    /// The clock reading the current section is timed from.
    pub closed spec fn start_spec(&self) -> Instant {
        self.start
    }

    /// Starts timing a frame, with no section recorded yet.
    pub fn new() -> (r: Self)
        ensures
            r.sections_spec() == Seq::<(String, u128)>::empty(),
    {
        Self { start: instant_now(), sections: Vec::new() }
    }

    /// Records a section called `name` that took `nanos` nanoseconds, after
    /// those recorded before; the total grows by `nanos`.
    pub fn record(&mut self, name: String, nanos: u128)
        ensures
            final(self).sections_spec() == old(self).sections_spec().push((name, nanos)),
            nanos_sum(final(self).sections_spec()) == nanos_sum(old(self).sections_spec()) + nanos,
            final(self).start_spec() == old(self).start_spec(),
    {
        let ghost before = self.sections@;
        self.sections.push((name, nanos));
        assert(self.sections@.drop_last() =~= before);
    }

    /// Ends a section called `name`: records the time since the last section
    /// ended (or since the frame started), read from the clock, and starts
    /// the next one from a new reading. The new last section is `name` with
    /// that time, and the total grows by it.
    pub fn timestamp(&mut self, name: String)
        ensures
            final(self).sections_spec() == old(self).sections_spec().push(
                (name, final(self).sections_spec().last().1),
            ),
            nanos_sum(final(self).sections_spec()) == nanos_sum(old(self).sections_spec())
                + final(self).sections_spec().last().1,
    {
        let elapsed = elapsed_nanos(&self.start);
        self.record(name, elapsed);
        self.start = instant_now();
    }

    /// The time of all sections together, in nanoseconds. The sum must fit
    /// in a `Duration`.
    pub fn total(&self) -> (r: u128)
        requires
            nanos_sum(self.sections_spec()) <= MAX_DURATION_NANOS,
        ensures
            r == nanos_sum(self.sections_spec()),
    {
        let mut total: u128 = 0;
        let mut i: usize = 0;
        while i < self.sections.len()
            invariant
                i <= self.sections.len(),
                total == nanos_sum(self.sections@.take(i as int)),
                nanos_sum(self.sections@) <= MAX_DURATION_NANOS,
            decreases self.sections.len() - i,
        {
            proof {
                assert(self.sections@.take(i + 1).drop_last() == self.sections@.take(i as int));
                lemma_nanos_sum_prefix(self.sections@, i + 1);
            }
            total = total + self.sections[i].1;
            i = i + 1;
        }
        proof {
            assert(self.sections@.take(i as int) == self.sections@);
        }
        total
    }

    /// The recorded sections, oldest first.
    pub fn get_sections(&self) -> (r: &Vec<(String, u128)>)
        ensures
            r@ == self.sections_spec(),
    {
        &self.sections
    }
}

/// The sum over a prefix is at most the sum over the whole list.
proof fn lemma_nanos_sum_prefix(s: Seq<(String, u128)>, n: int)
    requires
        0 <= n <= s.len(),
    ensures
        nanos_sum(s.take(n)) <= nanos_sum(s),
    decreases s.len() - n,
{
    if n < s.len() {
        lemma_nanos_sum_prefix(s, n + 1);
        assert(s.take(n + 1).drop_last() == s.take(n));
    } else {
        assert(s.take(n) == s);
    }
}

impl Default for FrameTimestamps {
    fn default() -> (r: Self)
        ensures
            r.sections_spec() == Seq::<(String, u128)>::empty(),
    {
        Self::new()
    }
}

} // verus!
