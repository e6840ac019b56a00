use vstd::prelude::*;
use crate::window::Window;

verus! {

/// A window reports once it has been open for longer than this many
/// nanoseconds (one second).
pub const REPORT_INTERVAL_NANOS: u64 = 1_000_000_000;

/// Why the probe stops.
#[derive(Clone, Copy, Debug, PartialEq, Eq, Structural)]
pub enum ProbeError {
    /// A datagram arrived whose size is not the configured length; it holds
    /// the size received.
    SizeMismatch(usize),
    /// The round count of the window would pass its largest value.
    Overflow,
}

/// The statistics of one window, emitted when it closes. Durations are in
/// nanoseconds.
#[derive(Clone, Copy, Debug, PartialEq, Eq, Structural)]
pub struct Report {
    /// Round trips completed in the window.
    pub count: u32,
    /// How long the window was open.
    pub elapsed: u64,
    /// The shortest time between arrivals seen in the window.
    pub shortest: Option<u64>,
    /// The longest time between arrivals seen in the window.
    pub longest: Option<u64>,
    /// The time the window was open, divided by its round count.
    pub average: u64,
}

/// The state that the probe carries from one cycle to the next: the current
/// window and the instant (in nanoseconds) of the previous arrival.
#[derive(Clone, Copy, Debug, PartialEq, Eq, Structural)]
pub struct Probe {
    pub window: Window,
    pub last_arrival: u64,
}

/// The time from `earlier` to `later`, or zero if `later` is not after it.
pub open spec fn elapsed_between(earlier: u64, later: u64) -> u64 {
    if later >= earlier {
        (later - earlier) as u64
    } else {
        0
    }
}

impl Probe {
    /// The probe is well formed when its window is.
    pub open spec fn wf(self) -> bool {
        self.window.wf()
    }

    /// The probe at instant `now`, before any datagram has arrived.
    pub open spec fn initial(now: u64) -> Probe {
        Probe { window: crate::window::window_of(now, Seq::empty()), last_arrival: now }
    }

    /// The state and the report after one completed round trip whose datagram
    /// arrived at `arrival`, with the statistics updated at `now`: the sample is
    /// the time since the previous arrival, and a window open for longer than
    /// the interval reports and starts afresh at `now`.
    pub open spec fn cycle(self, arrival: u64, now: u64) -> (Probe, Option<Report>) {
        let w = self.window.recorded(elapsed_between(self.last_arrival, now));
        let open_for = elapsed_between(self.window.opened_at, now);
        if open_for > REPORT_INTERVAL_NANOS {
            (
                Probe::initial(now).with_last_arrival(arrival),
                Some(
                    Report {
                        count: w.count,
                        elapsed: open_for,
                        shortest: w.shortest,
                        longest: w.longest,
                        average: (open_for / (w.count as u64)) as u64,
                    },
                ),
            )
        } else {
            (Probe { window: w, last_arrival: arrival }, None)
        }
    }

    /// The same probe with its previous arrival at `arrival`.
    pub open spec fn with_last_arrival(self, arrival: u64) -> Probe {
        Probe { window: self.window, last_arrival: arrival }
    }

    /// A probe whose clock started at `now`.
    pub fn new(now: u64) -> (p: Probe)
        ensures
            p == Probe::initial(now),
            p.wf(),
    {
        Probe { window: Window::new(now), last_arrival: now }
    }

    /// Takes the received datagram of `size` bytes into the buffer `data` and
    /// gives what is to be sent back: the buffer itself, unchanged, when the
    /// size is the buffer's length, and otherwise the size mismatch that ends
    /// the probe, with nothing to send.
    pub fn echo<'a>(&self, data: &'a [u8], size: usize) -> (r: Result<&'a [u8], ProbeError>)
        ensures
            r is Ok <==> size == data@.len(),
            r matches Ok(reply) ==> reply@ == data@,
            r is Err ==> r == Err::<&[u8], ProbeError>(ProbeError::SizeMismatch(size)),
    {
        if size != data.len() {
            Err(ProbeError::SizeMismatch(size))
        } else {
            Ok(data)
        }
    }

    /// Updates the statistics after a round trip whose datagram arrived at
    /// `arrival`, at instant `now`. It fails with `Overflow`, and leaves the
    /// probe as it was, when the window's count is at its largest value;
    /// otherwise it gives the report of the window if that closed.
    pub fn record_cycle(&mut self, arrival: u64, now: u64) -> (r: Result<
        Option<Report>,
        ProbeError,
    >)
        ensures
            r is Err <==> old(self).window.count == u32::MAX,
            r is Err ==> r == Err::<Option<Report>, ProbeError>(ProbeError::Overflow),
            r is Err ==> *final(self) == *old(self),
            r matches Ok(report) ==> (*final(self), report) == old(self).cycle(arrival, now),
            old(self).wf() ==> final(self).wf(),
    {
        let sample = now.saturating_sub(self.last_arrival);
        match self.window.record(sample) {
            Err(()) => {
                return Err(ProbeError::Overflow);
            },
            Ok(()) => {},
        }
        self.last_arrival = arrival;
        let open_for = now.saturating_sub(self.window.opened_at);
        if open_for > REPORT_INTERVAL_NANOS {
            let count = self.window.count;
            let report = Report {
                count,
                elapsed: open_for,
                shortest: self.window.shortest,
                longest: self.window.longest,
                average: open_for / (count as u64),
            };
            self.window = Window::new(now);
            Ok(Some(report))
        } else {
            Ok(None)
        }
    }
}

/// A zero-filled datagram of `length` bytes.
pub fn zero_datagram(length: usize) -> (v: Vec<u8>)
    ensures
        v@ == Seq::new(length as nat, |i: int| 0u8),
{
    let v = vec![0u8; length];
    assert(v@ =~= Seq::new(length as nat, |i: int| 0u8));
    v
}

/// Starts the probe at instant `now` for datagrams of `data_length` bytes.
/// Gives the probe, the zero-filled buffer that every cycle reuses, and
/// whether that buffer is to be sent to the peer once before the first
/// receive.
pub fn start(send_first: bool, data_length: usize, now: u64) -> (r: (Probe, Vec<u8>, bool))
    ensures
        r.0 == Probe::initial(now),
        r.0.wf(),
        r.1@ == Seq::new(data_length as nat, |i: int| 0u8),
        r.2 == send_first,
{
    (Probe::new(now), zero_datagram(data_length), send_first)
}

/// The probe after the completed round trips `cycles`, each given as its
/// arrival instant and the instant its statistics were updated.
pub open spec fn run(p: Probe, cycles: Seq<(u64, u64)>) -> Probe
    decreases cycles.len(),
{
    if cycles.len() == 0 {
        p
    } else {
        run(p, cycles.drop_last()).cycle(cycles.last().0, cycles.last().1).0
    }
}

/// None of the round trips `cycles`, run from `p`, closes a window.
pub open spec fn quiet(p: Probe, cycles: Seq<(u64, u64)>) -> bool {
    forall|k: int|
        0 <= k < cycles.len() ==> (#[trigger] run(p, cycles.take(k)).cycle(
            cycles[k].0,
            cycles[k].1,
        )).1 is None
}

/// The samples that the round trips `cycles` take, run from `p`: for each,
/// the time from the previous arrival to the instant of its update.
pub open spec fn samples_of(p: Probe, cycles: Seq<(u64, u64)>) -> Seq<u64>
    decreases cycles.len(),
{
    if cycles.len() == 0 {
        Seq::empty()
    } else {
        let init = cycles.drop_last();
        samples_of(p, init).push(elapsed_between(run(p, init).last_arrival, cycles.last().1))
    }
}

/// Between reports, the open window is exactly the fold of the samples taken
/// since it opened: a window that held `prior` holds, after round trips that
/// close no window, `prior` followed by their samples.
pub proof fn lemma_window_holds_samples(p: Probe, prior: Seq<u64>, cycles: Seq<(u64, u64)>)
    requires
        p.window == crate::window::window_of(p.window.opened_at, prior),
        prior.len() + cycles.len() <= u32::MAX,
        quiet(p, cycles),
    ensures
        samples_of(p, cycles).len() == cycles.len(),
        run(p, cycles).window == crate::window::window_of(
            p.window.opened_at,
            prior + samples_of(p, cycles),
        ),
    decreases cycles.len(),
{
    if cycles.len() == 0 {
        assert(prior + samples_of(p, cycles) =~= prior);
    } else {
        let init = cycles.drop_last();
        assert forall|k: int| 0 <= k < init.len() implies (#[trigger] run(p, init.take(k)).cycle(
            init[k].0,
            init[k].1,
        )).1 is None by {
            assert(init.take(k) =~= cycles.take(k));
            assert(run(p, cycles.take(k)).cycle(cycles[k].0, cycles[k].1).1 is None);
        }
        lemma_window_holds_samples(p, prior, init);
        let last = cycles.len() - 1;
        assert(cycles.take(last) =~= init);
        assert(run(p, cycles.take(last)).cycle(cycles[last].0, cycles[last].1).1 is None);
        let x = elapsed_between(run(p, init).last_arrival, cycles.last().1);
        crate::window::lemma_record_extends(p.window.opened_at, prior + samples_of(p, init), x);
        assert((prior + samples_of(p, init)).push(x) =~= prior + samples_of(p, cycles));
    }
}

/// Once a round trip closes a window, what the next window counts starts
/// from nothing: after any further round trips that close no window, the
/// open window counts exactly those, and opened at the instant of the report.
pub proof fn lemma_report_resets_window(
    p: Probe,
    arrival: u64,
    now: u64,
    cycles: Seq<(u64, u64)>,
)
    requires
        p.cycle(arrival, now).1 is Some,
        cycles.len() <= u32::MAX,
        quiet(p.cycle(arrival, now).0, cycles),
    ensures
        run(p.cycle(arrival, now).0, cycles).window.count == cycles.len(),
        run(p.cycle(arrival, now).0, cycles).window.opened_at == now,
    decreases cycles.len(),
{
    let q = p.cycle(arrival, now).0;
    if cycles.len() > 0 {
        let init = cycles.drop_last();
        assert forall|k: int| 0 <= k < init.len() implies (#[trigger] run(q, init.take(k)).cycle(
            init[k].0,
            init[k].1,
        )).1 is None by {
            assert(init.take(k) =~= cycles.take(k));
            assert(run(q, cycles.take(k)).cycle(cycles[k].0, cycles[k].1).1 is None);
        }
        lemma_report_resets_window(p, arrival, now, init);
        let last = cycles.len() - 1;
        assert(cycles.take(last) =~= init);
        assert(run(q, cycles.take(last)).cycle(cycles[last].0, cycles[last].1).1 is None);
    }
}

} // verus!
