//! Acquisition-of-signal / loss-of-signal detection over a fixed-stride sweep.
//!
//! The detector never looks at an angle. Each sample of the sweep arrives as a
//! [`Reading`]: whether the satellite's elevation was strictly above the
//! station's minimum, at or below it, or could not be evaluated at all.

use vstd::prelude::*;

verus! {

/// What one evaluation of the satellite's elevation says about visibility.
#[derive(Clone, Copy, Debug, PartialEq, Eq, Structural)]
pub enum Reading {
    /// No observation could be made at this instant; the sample is skipped.
    Unavailable,
    /// The elevation is at or below the minimum elevation.
    AtOrBelow,
    /// The elevation exceeds the minimum elevation.
    Above,
}

/// A visibility window, in Unix seconds: the sample at which the satellite was
/// first seen above the minimum elevation and the first later sample at which
/// it was at or below it again.
#[derive(Clone, Copy, Debug, PartialEq, Eq, Structural)]
pub struct Pass {
    pub start: i64,
    pub end: i64,
}

impl Pass {
    /// A pass is a non-empty interval.
    pub open spec fn wf(&self) -> bool {
        self.start < self.end
    }

    /// `self` lies wholly before `later`: the closed intervals share no instant.
    pub open spec fn precedes(&self, later: &Pass) -> bool {
        self.end < later.start
    }
}

/// The detector's state between two samples.
#[derive(Clone, Copy, Debug, PartialEq, Eq, Structural)]
pub enum DetectorState {
    /// No sample at or below the minimum has been seen yet, so a pass that
    /// began before the search window may still be under way.
    Undetermined,
    /// The last evaluated sample was at or below the minimum elevation.
    BelowHorizon,
    /// The satellite rose inside the window at `aos` and has not set since.
    InPass { aos: i64 },
}

/// The transition function: the state after a sample taken at `time`, and the
/// pass that the sample closes, if it closes one.
pub open spec fn step_spec(state: DetectorState, time: i64, reading: Reading) -> (
    DetectorState,
    Option<Pass>,
) {
    match reading {
        Reading::Unavailable => (state, None),
        Reading::Above => match state {
            DetectorState::BelowHorizon => (DetectorState::InPass { aos: time }, None),
            _ => (state, None),
        },
        Reading::AtOrBelow => match state {
            DetectorState::InPass { aos } => (
                DetectorState::BelowHorizon,
                if aos < time {
                    Some(Pass { start: aos, end: time })
                } else {
                    None
                },
            ),
            _ => (DetectorState::BelowHorizon, None),
        },
    }
}

/// Advances the detector by one sample.
pub fn step(state: DetectorState, time: i64, reading: Reading) -> (r: (DetectorState, Option<Pass>))
    ensures
        r == step_spec(state, time, reading),
        match r.1 {
            Some(pass) => pass.wf(),
            None => true,
        },
{
    match reading {
        Reading::Unavailable => (state, None),
        Reading::Above => match state {
            DetectorState::BelowHorizon => (DetectorState::InPass { aos: time }, None),
            _ => (state, None),
        },
        Reading::AtOrBelow => match state {
            DetectorState::InPass { aos } => {
                if aos < time {
                    (DetectorState::BelowHorizon, Some(Pass { start: aos, end: time }))
                } else {
                    (DetectorState::BelowHorizon, None)
                }
            },
            _ => (DetectorState::BelowHorizon, None),
        },
    }
}

/// Seconds between two samples of a search for passes: one evaluation a minute.
pub const SEARCH_STRIDE_SECS: u64 = 60;

/// How many samples a sweep of `horizon` seconds takes at one sample every
/// `stride` seconds, the first at the very start: the number of multiples of
/// `stride` that lie strictly below `horizon`.
pub open spec fn samples_within(horizon: int, stride: int) -> int {
    (horizon + stride - 1) / stride
}

/// The mathematical content of a [`Schedule`]: sample `k`, for `k < count`, is
/// taken at `start + k * stride`.
pub struct ScheduleView {
    pub start: int,
    pub stride: int,
    pub count: nat,
}

impl ScheduleView {
    /// The instant of sample `k`.
    pub open spec fn time_at(&self, k: int) -> int {
        self.start + k * self.stride
    }

    /// The stride is positive and every sample instant is a valid timestamp.
    pub open spec fn wf(&self) -> bool {
        &&& i64::MIN <= self.start <= i64::MAX
        &&& 1 <= self.stride <= u64::MAX
        &&& self.count <= u64::MAX
        &&& self.count > 0 ==> self.time_at(self.count - 1) <= i64::MAX
    }
}

/// The sample instants of one sweep, in Unix seconds.
#[derive(Clone, Copy, Debug)]
pub struct Schedule {
    start: i64,
    stride: u64,
    count: u64,
}

impl View for Schedule {
    type V = ScheduleView;

    closed spec fn view(&self) -> ScheduleView {
        ScheduleView { start: self.start as int, stride: self.stride as int, count: self.count as nat }
    }
}

/// Sample instants grow with the sample's number.
pub proof fn lemma_times_increase(s: ScheduleView, j: int, k: int)
    requires
        s.stride >= 1,
        j < k,
    ensures
        s.time_at(j) < s.time_at(k),
        s.time_at(j) + s.stride <= s.time_at(k),
{
    assert(j * s.stride + s.stride <= k * s.stride) by (nonlinear_arith)
        requires
            s.stride >= 1,
            j < k,
    ;
}

/// Sample `k` falls inside the horizon exactly when `k` is below
/// `samples_within(horizon, stride)`.
pub proof fn lemma_samples_within(horizon: int, stride: int, k: int)
    requires
        0 <= horizon,
        1 <= stride,
        0 <= k,
    ensures
        0 <= samples_within(horizon, stride),
        k < samples_within(horizon, stride) <==> k * stride < horizon,
{
    let n = samples_within(horizon, stride);
    let a = horizon + stride - 1;
    assert(a == stride * (a / stride) + a % stride && 0 <= a % stride < stride) by (nonlinear_arith)
        requires
            stride >= 1,
    ;
    assert(0 <= n) by (nonlinear_arith)
        requires
            a >= 0,
            stride >= 1,
            a == stride * n + a % stride,
            a % stride < stride,
    ;
    if k < n {
        assert(k * stride <= (n - 1) * stride) by (nonlinear_arith)
            requires
                k <= n - 1,
                stride >= 1,
        ;
        assert((n - 1) * stride == stride * n - stride) by (nonlinear_arith);
    } else {
        assert(k * stride >= n * stride) by (nonlinear_arith)
            requires
                k >= n,
                stride >= 1,
        ;
        assert(n * stride == stride * n) by (nonlinear_arith);
    }
}

impl Schedule {
    #[verifier::type_invariant]
    spec fn inv(self) -> bool {
        self@.wf()
    }

    /// A sweep that starts at `start` and takes one sample every `stride`
    /// seconds for as long as the sample falls before `start + horizon`.
    ///
    /// There is no such sweep when the stride is zero or when the end of the
    /// window is not a valid timestamp.
    pub fn new(start: i64, horizon: u64, stride: u64) -> (r: Option<Schedule>)
        ensures
            r is Some <==> stride > 0 && start + horizon <= i64::MAX,
            r is Some ==> r->0@ == (ScheduleView {
                start: start as int,
                stride: stride as int,
                count: samples_within(horizon as int, stride as int) as nat,
            }) && r->0@.wf(),
    {
        if stride == 0 {
            return None;
        }
        if start as i128 + horizon as i128 > i64::MAX as i128 {
            return None;
        }
        let count: u64 = if horizon == 0 {
            0
        } else {
            (horizon - 1) / stride + 1
        };
        proof {
            let h = horizon as int;
            let d = stride as int;
            lemma_samples_within(h, d, count as int);
            if h > 0 {
                let q = (h - 1) / d;
                assert(h - 1 == d * q + (h - 1) % d && 0 <= (h - 1) % d < d) by (nonlinear_arith)
                    requires
                        d >= 1,
                        q == (h - 1) / d,
                ;
                assert((q + 1) * d == d * q + d) by (nonlinear_arith);
                assert(q * d == d * q) by (nonlinear_arith);
                lemma_samples_within(h, d, q);
            } else {
                assert(0 * d == 0);
            }
            assert(count == samples_within(h, d));
            if count > 0 {
                lemma_samples_within(h, d, count - 1);
            }
        }
        Some(Schedule { start, stride, count })
    }

    /// The instant of the first sample.
    pub fn start(&self) -> (r: i64)
        ensures
            r == self@.start,
    {
        self.start
    }

    /// The seconds between one sample and the next.
    pub fn stride(&self) -> (r: u64)
        ensures
            r == self@.stride,
    {
        self.stride
    }

    /// The number of samples.
    pub fn count(&self) -> (r: u64)
        ensures
            r == self@.count,
    {
        self.count
    }

    /// The instant of sample `k`, for the samples that the sweep has.
    pub fn time_at(&self, k: u64) -> (r: Option<i64>)
        ensures
            self@.wf(),
            r is Some <==> k < self@.count,
            r is Some ==> r->0 == self@.time_at(k as int),
    {
        proof {
            use_type_invariant(self);
        }
        if k >= self.count {
            return None;
        }
        proof {
            let d = self.stride as int;
            assert(0 <= k * d <= (self.count - 1) * d) by (nonlinear_arith)
                requires
                    0 <= k <= self.count - 1,
                    d >= 1,
            ;
        }
        let offset: i128 = (k as i128) * (self.stride as i128);
        let t: i128 = self.start as i128 + offset;
        Some(t as i64)
    }
}

/// What a sweep has established after some of its samples: the detector's
/// state and the passes reported so far, earliest first.
pub struct Trace {
    pub state: DetectorState,
    pub passes: Seq<Pass>,
}

/// The sweep itself: the detector starts `Undetermined` and takes
/// `readings[k]` as the sample at `schedule.time_at(k)`, one after another.
pub open spec fn run(schedule: ScheduleView, readings: Seq<Reading>) -> Trace
    decreases readings.len(),
{
    if readings.len() == 0 {
        Trace { state: DetectorState::Undetermined, passes: Seq::empty() }
    } else {
        let before = run(schedule, readings.drop_last());
        let time = schedule.time_at(readings.len() - 1) as i64;
        let (state, emitted) = step_spec(before.state, time, readings.last());
        Trace {
            state,
            passes: match emitted {
                Some(pass) => before.passes.push(pass),
                None => before.passes,
            },
        }
    }
}

/// The readings that a sweep on `schedule` takes from `readings`: one per
/// sample, and no more than there are.
pub open spec fn sweep_input(schedule: ScheduleView, readings: Seq<Reading>) -> Seq<Reading> {
    if readings.len() <= schedule.count {
        readings
    } else {
        readings.take(schedule.count as int)
    }
}

/// Every pass is a non-empty interval and each lies wholly before the next.
pub open spec fn ordered(passes: Seq<Pass>) -> bool {
    &&& forall|i: int| 0 <= i < passes.len() ==> (#[trigger] passes[i]).wf()
    &&& forall|i: int, j: int|
        #![trigger passes[i], passes[j]]
        0 <= i < j < passes.len() ==> passes[i].precedes(&passes[j])
}

/// What holds of a trace after `n` samples, beyond `ordered`: nothing in it
/// reaches the instant of sample `n`, and an open pass began after every
/// reported one.
spec fn settled_before(schedule: ScheduleView, trace: Trace, n: int) -> bool {
    &&& ordered(trace.passes)
    &&& forall|i: int|
        0 <= i < trace.passes.len() ==> (#[trigger] trace.passes[i]).end < schedule.time_at(n)
    &&& match trace.state {
        DetectorState::InPass { aos } => {
            &&& aos < schedule.time_at(n)
            &&& forall|i: int|
                0 <= i < trace.passes.len() ==> (#[trigger] trace.passes[i]).end < aos
        },
        _ => true,
    }
}

proof fn lemma_run_settled(schedule: ScheduleView, readings: Seq<Reading>)
    requires
        schedule.wf(),
        readings.len() <= schedule.count,
    ensures
        settled_before(schedule, run(schedule, readings), readings.len() as int),
    decreases readings.len(),
{
    let n = readings.len() as int;
    if n > 0 {
        let before = run(schedule, readings.drop_last());
        lemma_run_settled(schedule, readings.drop_last());
        lemma_times_increase(schedule, n - 1, n);
        lemma_times_increase(schedule, -1, n - 1);
        if n < schedule.count {
            lemma_times_increase(schedule, n - 1, schedule.count - 1);
        }
        let time = schedule.time_at(n - 1);
        assert(i64::MIN <= time <= i64::MAX);
        let after = run(schedule, readings);
        assert forall|i: int| 0 <= i < after.passes.len() implies (#[trigger] after.passes[i]).end
            < schedule.time_at(n) by {
            if i < before.passes.len() {
                assert(after.passes[i] == before.passes[i]);
            }
        }
    }
}

/// No sweep reports an empty or inverted pass, and no two passes that one
/// sweep reports share an instant.
pub proof fn lemma_passes_ordered(schedule: ScheduleView, readings: Seq<Reading>)
    requires
        schedule.wf(),
        readings.len() <= schedule.count,
    ensures
        ordered(run(schedule, readings).passes),
{
    lemma_run_settled(schedule, readings);
}

/// The pass that the next sample closes, if it closes one, after the sweep has
/// taken `before`.
pub open spec fn emitted_by(schedule: ScheduleView, before: Seq<Reading>, reading: Reading) -> Option<
    Pass,
> {
    step_spec(run(schedule, before).state, schedule.time_at(before.len() as int) as i64, reading).1
}

/// One more sample adds to the trace what that sample closes, and nothing else.
pub proof fn lemma_run_push(schedule: ScheduleView, before: Seq<Reading>, reading: Reading)
    ensures
        run(schedule, before.push(reading)).passes == match emitted_by(schedule, before, reading) {
            Some(pass) => run(schedule, before).passes.push(pass),
            None => run(schedule, before).passes,
        },
        run(schedule, before.push(reading)).state == step_spec(
            run(schedule, before).state,
            schedule.time_at(before.len() as int) as i64,
            reading,
        ).0,
{
    assert(before.push(reading).drop_last() =~= before);
}

/// What a sweep has reported after some of its samples it has reported after
/// all of them, in the same places.
pub proof fn lemma_run_prefix(schedule: ScheduleView, readings: Seq<Reading>, n: int)
    requires
        0 <= n <= readings.len(),
    ensures
        run(schedule, readings.take(n)).passes.len() <= run(schedule, readings).passes.len(),
        run(schedule, readings.take(n)).passes =~= run(schedule, readings).passes.take(
            run(schedule, readings.take(n)).passes.len() as int,
        ),
    decreases readings.len() - n,
{
    if n < readings.len() {
        lemma_run_prefix(schedule, readings, n + 1);
        assert(readings.take(n + 1).drop_last() =~= readings.take(n));
    } else {
        assert(readings.take(n) =~= readings);
    }
}

/// The mathematical content of a [`PassDetector`]: the sweep it follows and the
/// readings it has taken so far.
pub struct DetectorView {
    pub schedule: ScheduleView,
    pub readings: Seq<Reading>,
}

/// The detector of one sweep, fed one reading per sample instant.
pub struct PassDetector {
    schedule: Schedule,
    index: u64,
    state: DetectorState,
    taken: Ghost<Seq<Reading>>,
}

impl View for PassDetector {
    type V = DetectorView;

    closed spec fn view(&self) -> DetectorView {
        DetectorView { schedule: self.schedule@, readings: self.taken@ }
    }
}

impl PassDetector {
    #[verifier::type_invariant]
    spec fn inv(self) -> bool {
        &&& self.schedule@.wf()
        &&& self.index <= self.schedule@.count
        &&& self.taken@.len() == self.index
        &&& self.state == run(self.schedule@, self.taken@).state
    }

    /// A detector at the start of the sweep on `schedule`.
    pub fn new(schedule: Schedule) -> (r: PassDetector)
        ensures
            r@.schedule == schedule@,
            r@.readings == Seq::<Reading>::empty(),
    {
        proof {
            use_type_invariant(&schedule);
        }
        PassDetector {
            schedule,
            index: 0,
            state: DetectorState::Undetermined,
            taken: Ghost(Seq::empty()),
        }
    }

    /// The state that the readings taken so far have led to.
    pub fn state(&self) -> (r: DetectorState)
        ensures
            r == run(self@.schedule, self@.readings).state,
    {
        proof {
            use_type_invariant(self);
        }
        self.state
    }

    /// The instant at which the next reading is due, while the sweep lasts.
    pub fn next_time(&self) -> (r: Option<i64>)
        ensures
            self@.schedule.wf(),
            self@.readings.len() <= self@.schedule.count,
            r is Some <==> self@.readings.len() < self@.schedule.count,
            r is Some ==> r->0 == self@.schedule.time_at(self@.readings.len() as int),
    {
        proof {
            use_type_invariant(self);
        }
        self.schedule.time_at(self.index)
    }

    /// Takes the reading of the sample that is due and reports the pass that it
    /// closes. Once the sweep is over a reading changes nothing.
    pub fn feed(&mut self, reading: Reading) -> (r: Option<Pass>)
        ensures
            final(self)@.schedule == old(self)@.schedule,
            old(self)@.readings.len() < old(self)@.schedule.count ==> {
                &&& final(self)@.readings == old(self)@.readings.push(reading)
                &&& r == emitted_by(old(self)@.schedule, old(self)@.readings, reading)
            },
            old(self)@.readings.len() >= old(self)@.schedule.count ==> {
                &&& final(self)@.readings == old(self)@.readings
                &&& r is None
            },
    {
        proof {
            use_type_invariant(&*self);
        }
        match self.schedule.time_at(self.index) {
            None => None,
            Some(time) => {
                let (state, emitted) = step(self.state, time, reading);
                proof {
                    lemma_run_push(self.schedule@, self.taken@, reading);
                }
                *self = PassDetector {
                    schedule: self.schedule,
                    index: self.index + 1,
                    state,
                    taken: Ghost(self.taken@.push(reading)),
                };
                emitted
            },
        }
    }
}

/// The first element of a sequence, if it has one.
pub open spec fn first_of(passes: Seq<Pass>) -> Option<Pass> {
    if passes.len() > 0 {
        Some(passes[0])
    } else {
        None
    }
}

/// Every pass of the sweep on `schedule` whose samples read `readings`, the
/// earliest first. `readings[k]` is the reading at the instant of sample `k`;
/// readings beyond the last sample are not looked at, and a sweep with fewer
/// readings than samples ends with the last reading.
pub fn next_passes(schedule: &Schedule, readings: &Vec<Reading>) -> (r: Vec<Pass>)
    ensures
        r@ == run(schedule@, sweep_input(schedule@, readings@)).passes,
        ordered(r@),
        forall|i: int|
            0 <= i < r@.len() ==> is_transit(
                schedule@,
                sweep_input(schedule@, readings@),
                #[trigger] r@[i],
            ),
        forall|pass: Pass|
            is_transit(schedule@, sweep_input(schedule@, readings@), pass) ==> r@.contains(pass),
{
    let mut detector = PassDetector::new(*schedule);
    let mut found: Vec<Pass> = Vec::new();
    let mut k: usize = 0;
    proof {
        use_type_invariant(schedule);
    }
    while k < readings.len()
        invariant
            k <= readings.len(),
            schedule@.wf(),
            detector@.schedule == schedule@,
            k <= schedule@.count ==> detector@.readings == readings@.take(k as int),
            k > schedule@.count ==> detector@.readings == readings@.take(schedule@.count as int),
            found@ == run(schedule@, detector@.readings).passes,
        decreases readings.len() - k,
    {
        let ghost before = detector@.readings;
        let emitted = detector.feed(readings[k]);
        proof {
            if k < schedule@.count {
                lemma_run_push(schedule@, before, readings@[k as int]);
                assert(readings@.take(k as int + 1) =~= readings@.take(k as int).push(
                    readings@[k as int],
                ));
            }
        }
        match emitted {
            Some(pass) => {
                found.push(pass);
            },
            None => {},
        }
        k = k + 1;
    }
    proof {
        let input = sweep_input(schedule@, readings@);
        assert(readings@.take(readings@.len() as int) =~= readings@);
        lemma_passes_ordered(schedule@, input);
        lemma_passes_are_transits(schedule@, input);
        assert forall|pass: Pass| is_transit(schedule@, input, pass) implies found@.contains(
            pass,
        ) by {
            lemma_transits_are_passes(schedule@, input, pass);
        }
    }
    found
}

/// The first pass of the sweep on `schedule` whose samples read `readings`,
/// or `None` where the sweep ends without one. The sweep stops at the sample
/// that closes the pass.
pub fn next_pass(schedule: &Schedule, readings: &Vec<Reading>) -> (r: Option<Pass>)
    ensures
        r == first_of(run(schedule@, sweep_input(schedule@, readings@)).passes),
        match r {
            Some(pass) => pass.wf() && is_transit(
                schedule@,
                sweep_input(schedule@, readings@),
                pass,
            ),
            None => forall|pass: Pass|
                !is_transit(schedule@, sweep_input(schedule@, readings@), pass),
        },
{
    let mut detector = PassDetector::new(*schedule);
    let mut k: usize = 0;
    proof {
        use_type_invariant(schedule);
    }
    while k < readings.len()
        invariant
            k <= readings.len(),
            schedule@.wf(),
            detector@.schedule == schedule@,
            k <= schedule@.count ==> detector@.readings == readings@.take(k as int),
            k > schedule@.count ==> detector@.readings == readings@.take(schedule@.count as int),
            run(schedule@, detector@.readings).passes.len() == 0,
        decreases readings.len() - k,
    {
        let ghost before = detector@.readings;
        let emitted = detector.feed(readings[k]);
        proof {
            if k < schedule@.count {
                lemma_run_push(schedule@, before, readings@[k as int]);
                assert(readings@.take(k as int + 1) =~= readings@.take(k as int).push(
                    readings@[k as int],
                ));
            }
        }
        match emitted {
            Some(pass) => {
                proof {
                    let input = sweep_input(schedule@, readings@);
                    let taken = readings@.take(k as int + 1);
                    assert(k < schedule@.count);
                    assert(input.take(k as int + 1) =~= taken);
                    assert(detector@.readings == taken);
                    assert(run(schedule@, taken).passes == Seq::<Pass>::empty().push(pass));
                    lemma_run_prefix(schedule@, input, k as int + 1);
                    lemma_passes_ordered(schedule@, input);
                    lemma_passes_are_transits(schedule@, input);
                    assert(run(schedule@, input).passes.take(1)[0] == pass);
                }
                return Some(pass);
            },
            None => {},
        }
        k = k + 1;
    }
    proof {
        let input = sweep_input(schedule@, readings@);
        assert(readings@.take(readings@.len() as int) =~= readings@);
        assert forall|pass: Pass| !is_transit(schedule@, input, pass) by {
            if is_transit(schedule@, input, pass) {
                lemma_transits_are_passes(schedule@, input, pass);
            }
        }
    }
    None
}

/// The satellite is seen to rise at sample `a`: sample `b` before it read at or
/// below the minimum, sample `a` reads above it, and no sample between the two
/// could be evaluated.
pub open spec fn rises_at(readings: Seq<Reading>, b: int, a: int) -> bool {
    &&& 0 <= b < a < readings.len()
    &&& readings[b] == Reading::AtOrBelow
    &&& readings[a] == Reading::Above
    &&& forall|j: int| b < j < a ==> #[trigger] readings[j] == Reading::Unavailable
}

/// From sample `a` up to sample `n`, neither included, nothing reads at or
/// below the minimum.
pub open spec fn stays_up(readings: Seq<Reading>, a: int, n: int) -> bool {
    forall|j: int| a < j < n ==> #[trigger] readings[j] != Reading::AtOrBelow
}

/// `pass` is the transit that rises at sample `a`, after sample `b`, and sets
/// at sample `l`, the first sample after `a` that reads at or below the
/// minimum.
pub open spec fn transit_at(
    schedule: ScheduleView,
    readings: Seq<Reading>,
    pass: Pass,
    b: int,
    a: int,
    l: int,
) -> bool {
    &&& rises_at(readings, b, a)
    &&& a < l < readings.len()
    &&& stays_up(readings, a, l)
    &&& readings[l] == Reading::AtOrBelow
    &&& pass.start == schedule.time_at(a)
    &&& pass.end == schedule.time_at(l)
}

/// `pass` is a transit that `readings` show from rise to set.
pub open spec fn is_transit(schedule: ScheduleView, readings: Seq<Reading>, pass: Pass) -> bool {
    exists|b: int, a: int, l: int| transit_at(schedule, readings, pass, b, a, l)
}

/// What a state says of the readings that led to it.
pub open spec fn state_reflects(
    schedule: ScheduleView,
    readings: Seq<Reading>,
    state: DetectorState,
) -> bool {
    match state {
        DetectorState::Undetermined => forall|j: int|
            0 <= j < readings.len() ==> #[trigger] readings[j] != Reading::AtOrBelow,
        DetectorState::BelowHorizon => exists|b: int|
            {
                &&& 0 <= b < readings.len()
                &&& #[trigger] readings[b] == Reading::AtOrBelow
                &&& forall|j: int|
                    b < j < readings.len() ==> #[trigger] readings[j] == Reading::Unavailable
            },
        DetectorState::InPass { aos } => exists|b: int, a: int|
            {
                &&& #[trigger] rises_at(readings, b, a)
                &&& stays_up(readings, a, readings.len() as int)
                &&& aos == schedule.time_at(a)
            },
    }
}

/// The state after a sweep says how the readings ended: with nothing at or
/// below the minimum seen yet, with the satellite down, or with a rise at the
/// recorded instant that no later sample has closed.
pub proof fn lemma_state_reflects(schedule: ScheduleView, readings: Seq<Reading>)
    requires
        schedule.wf(),
        readings.len() <= schedule.count,
    ensures
        state_reflects(schedule, readings, run(schedule, readings).state),
    decreases readings.len(),
{
    let n = readings.len() as int;
    if n > 0 {
        let prior = readings.drop_last();
        let before = run(schedule, prior).state;
        let after = run(schedule, readings).state;
        lemma_state_reflects(schedule, prior);
        lemma_times_increase(schedule, -1, n - 1);
        if n < schedule.count {
            lemma_times_increase(schedule, n - 1, schedule.count - 1);
        }
        assert(forall|j: int| 0 <= j < n - 1 ==> prior[j] == readings[j]);
        match readings.last() {
            Reading::Unavailable => {
                match before {
                    DetectorState::Undetermined => {},
                    DetectorState::BelowHorizon => {
                        let b = choose|b: int|
                            {
                                &&& 0 <= b < prior.len()
                                &&& #[trigger] prior[b] == Reading::AtOrBelow
                                &&& forall|j: int|
                                    b < j < prior.len() ==> #[trigger] prior[j]
                                        == Reading::Unavailable
                            };
                        assert(readings[b] == Reading::AtOrBelow);
                    },
                    DetectorState::InPass { aos } => {
                        let (b, a) = choose|b: int, a: int|
                            {
                                &&& #[trigger] rises_at(prior, b, a)
                                &&& stays_up(prior, a, prior.len() as int)
                                &&& aos == schedule.time_at(a)
                            };
                        assert(rises_at(readings, b, a));
                    },
                }
            },
            Reading::AtOrBelow => {
                assert(readings[n - 1] == Reading::AtOrBelow);
            },
            Reading::Above => {
                match before {
                    DetectorState::Undetermined => {},
                    DetectorState::BelowHorizon => {
                        let b = choose|b: int|
                            {
                                &&& 0 <= b < prior.len()
                                &&& #[trigger] prior[b] == Reading::AtOrBelow
                                &&& forall|j: int|
                                    b < j < prior.len() ==> #[trigger] prior[j]
                                        == Reading::Unavailable
                            };
                        assert(rises_at(readings, b, n - 1));
                    },
                    DetectorState::InPass { aos } => {
                        let (b, a) = choose|b: int, a: int|
                            {
                                &&& #[trigger] rises_at(prior, b, a)
                                &&& stays_up(prior, a, prior.len() as int)
                                &&& aos == schedule.time_at(a)
                            };
                        assert(rises_at(readings, b, a));
                    },
                }
            },
        }
    }
}

/// Every pass that a sweep reports is a transit that its readings show from
/// rise to set: it begins at the first sample above the minimum after one at or
/// below it, and ends at the first sample at or below the minimum after that.
/// So no pass is reported that was under way when the sweep began, and none
/// that the sweep did not see the end of.
pub proof fn lemma_passes_are_transits(schedule: ScheduleView, readings: Seq<Reading>)
    requires
        schedule.wf(),
        readings.len() <= schedule.count,
    ensures
        forall|i: int|
            0 <= i < run(schedule, readings).passes.len() ==> is_transit(
                schedule,
                readings,
                #[trigger] run(schedule, readings).passes[i],
            ),
    decreases readings.len(),
{
    let n = readings.len() as int;
    if n > 0 {
        let prior = readings.drop_last();
        let before = run(schedule, prior);
        let after = run(schedule, readings);
        lemma_passes_are_transits(schedule, prior);
        lemma_state_reflects(schedule, prior);
        lemma_times_increase(schedule, -1, n - 1);
        if n < schedule.count {
            lemma_times_increase(schedule, n - 1, schedule.count - 1);
        }
        assert(forall|j: int| 0 <= j < n - 1 ==> prior[j] == readings[j]);
        assert forall|i: int| 0 <= i < after.passes.len() implies is_transit(
            schedule,
            readings,
            #[trigger] after.passes[i],
        ) by {
            if i < before.passes.len() {
                let pass = before.passes[i];
                assert(after.passes[i] == pass);
                let (b, a, l) = choose|b: int, a: int, l: int|
                    transit_at(schedule, prior, pass, b, a, l);
                assert(transit_at(schedule, readings, pass, b, a, l));
            } else {
                let aos = before.state->aos;
                let (b, a) = choose|b: int, a: int|
                    {
                        &&& #[trigger] rises_at(prior, b, a)
                        &&& stays_up(prior, a, prior.len() as int)
                        &&& aos == schedule.time_at(a)
                    };
                assert(rises_at(readings, b, a));
                assert(transit_at(schedule, readings, after.passes[i], b, a, n - 1));
            }
        }
    }
}

/// Every transit that the readings show from rise to set is reported.
pub proof fn lemma_transits_are_passes(
    schedule: ScheduleView,
    readings: Seq<Reading>,
    pass: Pass,
)
    requires
        schedule.wf(),
        readings.len() <= schedule.count,
        is_transit(schedule, readings, pass),
    ensures
        run(schedule, readings).passes.contains(pass),
    decreases readings.len(),
{
    let n = readings.len() as int;
    let (b, a, l) = choose|b: int, a: int, l: int| transit_at(schedule, readings, pass, b, a, l);
    let prior = readings.drop_last();
    let before = run(schedule, prior);
    let after = run(schedule, readings);
    assert(forall|j: int| 0 <= j < n - 1 ==> prior[j] == readings[j]);
    if l < n - 1 {
        assert(transit_at(schedule, prior, pass, b, a, l));
        lemma_transits_are_passes(schedule, prior, pass);
        let i = choose|i: int| 0 <= i < before.passes.len() && before.passes[i] == pass;
        assert(after.passes[i] == pass);
    } else {
        lemma_state_reflects(schedule, prior);
        lemma_times_increase(schedule, a, l);
        lemma_times_increase(schedule, -1, a);
        if n < schedule.count {
            lemma_times_increase(schedule, l, schedule.count - 1);
        }
        assert(rises_at(prior, b, a));
        match before.state {
            DetectorState::Undetermined => {
                assert(prior[b] == Reading::AtOrBelow);
            },
            DetectorState::BelowHorizon => {
                let c = choose|c: int|
                    {
                        &&& 0 <= c < prior.len()
                        &&& #[trigger] prior[c] == Reading::AtOrBelow
                        &&& forall|j: int|
                            c < j < prior.len() ==> #[trigger] prior[j] == Reading::Unavailable
                    };
                assert(readings[c] == Reading::AtOrBelow);
                assert(prior[a] == Reading::Above);
                assert(false);
            },
            DetectorState::InPass { aos } => {
                let (c, d) = choose|c: int, d: int|
                    {
                        &&& #[trigger] rises_at(prior, c, d)
                        &&& stays_up(prior, d, prior.len() as int)
                        &&& aos == schedule.time_at(d)
                    };
                assert(readings[c] == Reading::AtOrBelow);
                assert(readings[b] == Reading::AtOrBelow);
                assert(prior[d] == Reading::Above);
                assert(prior[a] == Reading::Above);
                if d < a {
                    if b > d {
                        assert(prior[b] != Reading::AtOrBelow);
                    } else {
                        assert(prior[d] == Reading::Unavailable);
                    }
                    assert(false);
                }
                if a < d {
                    if c > a {
                        assert(readings[c] != Reading::AtOrBelow);
                    } else {
                        assert(prior[a] == Reading::Unavailable);
                    }
                    assert(false);
                }
                assert(a == d);
                assert(after.passes.last() == pass);
            },
        }
    }
}

} // verus!
