use vstd::prelude::*;

verus! {

/// What a reporting window has gathered: the number of round trips folded
/// into it, the shortest and longest sample seen (in nanoseconds), and the
/// instant (in nanoseconds) at which it opened.
#[derive(Clone, Copy, Debug, PartialEq, Eq, Structural)]
pub struct Window {
    pub count: u32,
    pub shortest: Option<u64>,
    pub longest: Option<u64>,
    pub opened_at: u64,
}

/// The shortest sample after `sample` is folded in: a tie keeps the newer one.
pub open spec fn keep_shortest(current: Option<u64>, sample: u64) -> Option<u64> {
    match current {
        Some(s) => if sample <= s { Some(sample) } else { Some(s) },
        None => Some(sample),
    }
}

/// The longest sample after `sample` is folded in: a tie keeps the newer one.
pub open spec fn keep_longest(current: Option<u64>, sample: u64) -> Option<u64> {
    match current {
        Some(l) => if sample >= l { Some(sample) } else { Some(l) },
        None => Some(sample),
    }
}

/// The shortest of `samples` as the window tracks it, folded in order.
pub open spec fn shortest_of(samples: Seq<u64>) -> Option<u64>
    decreases samples.len(),
{
    if samples.len() == 0 {
        None
    } else {
        keep_shortest(shortest_of(samples.drop_last()), samples.last())
    }
}

/// The longest of `samples` as the window tracks it, folded in order.
pub open spec fn longest_of(samples: Seq<u64>) -> Option<u64>
    decreases samples.len(),
{
    if samples.len() == 0 {
        None
    } else {
        keep_longest(longest_of(samples.drop_last()), samples.last())
    }
}

/// The window opened at `opened_at` that has recorded `samples` and nothing else.
pub open spec fn window_of(opened_at: u64, samples: Seq<u64>) -> Window {
    Window {
        count: samples.len() as u32,
        shortest: shortest_of(samples),
        longest: longest_of(samples),
        opened_at,
    }
}

impl Window {
    /// A window holds a sample exactly when it has counted one, and its
    /// shortest sample is no longer than its longest.
    pub open spec fn wf(self) -> bool {
        &&& (self.count == 0) == (self.shortest is None)
        &&& (self.count == 0) == (self.longest is None)
        &&& (self.count > 0 ==> self.shortest.unwrap() <= self.longest.unwrap())
    }

    /// The window after `sample` is folded in, when its count has room.
    pub open spec fn recorded(self, sample: u64) -> Window {
        Window {
            count: (self.count + 1) as u32,
            shortest: keep_shortest(self.shortest, sample),
            longest: keep_longest(self.longest, sample),
            opened_at: self.opened_at,
        }
    }

    /// An empty window opened at `now`.
    pub fn new(now: u64) -> (w: Window)
        ensures
            w == window_of(now, Seq::empty()),
            w.wf(),
    {
        Window { count: 0, shortest: None, longest: None, opened_at: now }
    }

    /// Folds one sample into the window. The count is checked: at its largest
    /// value it fails with `Err(())` and the window is left as it was.
    pub fn record(&mut self, sample: u64) -> (r: Result<(), ()>)
        ensures
            r is Err <==> old(self).count == u32::MAX,
            r is Err ==> *final(self) == *old(self),
            r is Ok ==> *final(self) == old(self).recorded(sample),
            old(self).wf() ==> final(self).wf(),
    {
        match self.count.checked_add(1) {
            None => Err(()),
            Some(c) => {
                self.count = c;
                let keep_s = match self.shortest {
                    Some(s) => sample <= s,
                    None => true,
                };
                if keep_s {
                    self.shortest = Some(sample);
                }
                let keep_l = match self.longest {
                    Some(l) => sample >= l,
                    None => true,
                };
                if keep_l {
                    self.longest = Some(sample);
                }
                Ok(())
            },
        }
    }
}

/// Recording one more sample into a window built from `samples` gives the
/// window built from `samples` with that sample appended, as long as the
/// count has room.
pub proof fn lemma_record_extends(opened_at: u64, samples: Seq<u64>, sample: u64)
    requires
        samples.len() < u32::MAX,
    ensures
        window_of(opened_at, samples.push(sample)) == window_of(opened_at, samples).recorded(
            sample,
        ),
{
    assert(samples.push(sample).drop_last() =~= samples);
}

/// In every window that has recorded at least one sample, the shortest
/// sample is no longer than any recorded sample, and every recorded sample
/// is no longer than the longest.
pub proof fn lemma_samples_within_bounds(samples: Seq<u64>)
    requires
        samples.len() > 0,
    ensures
        shortest_of(samples) is Some,
        longest_of(samples) is Some,
        shortest_of(samples).unwrap() <= longest_of(samples).unwrap(),
        forall|i: int|
            0 <= i < samples.len() ==> shortest_of(samples).unwrap() <= #[trigger] samples[i]
                <= longest_of(samples).unwrap(),
    decreases samples.len(),
{
    let init = samples.drop_last();
    if init.len() > 0 {
        lemma_samples_within_bounds(init);
        assert forall|i: int| 0 <= i < samples.len() implies shortest_of(samples).unwrap()
            <= #[trigger] samples[i] <= longest_of(samples).unwrap() by {
            if i < init.len() {
                assert(samples[i] == init[i]);
            }
        }
    }
}

/// Every window built from at most `u32::MAX` samples is well formed.
pub proof fn lemma_window_of_wf(opened_at: u64, samples: Seq<u64>)
    requires
        samples.len() <= u32::MAX,
    ensures
        window_of(opened_at, samples).wf(),
{
    if samples.len() > 0 {
        lemma_samples_within_bounds(samples);
    }
}

} // verus!
