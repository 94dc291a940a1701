use crate::detector::Detector;
use sysinfo::{RefreshKind, System, SystemExt};
use vstd::arithmetic::power2::{lemma2_to64, lemma2_to64_rest, lemma_pow2_strictly_increases, lemma_pow2_unfold, pow2};
use vstd::prelude::*;

verus! {

/// Growth of swap use, in bytes, beyond which a probe is taken to cause paging.
pub const SWAP_DELTA_THRESHOLD: u64 = 10_000_000;

/// Available memory, in bytes, at or under which a probe is rejected; also the
/// smallest probe worth making.
pub const FREE_MEM_THRESHOLD: u64 = 50_000_000;

/// The value probe chunks are filled with, so that their pages are committed.
pub const PROBE_FILL: u8 = 42;

/// The two limits of adaptive sizing.
#[derive(Clone, Copy, Debug, PartialEq, Eq)]
pub struct SizingPolicy {
    pub swap_delta_threshold: u64,
    pub free_mem_threshold: u64,
}

impl SizingPolicy {
    /// The limits are usable: a floor of zero would let probes shrink forever.
    pub open spec fn wf(&self) -> bool {
        self.free_mem_threshold > 0
    }

    /// 10 MB of swap growth, 50 MB of available memory.
    pub fn standard() -> (r: Self)
        ensures
            r.swap_delta_threshold == SWAP_DELTA_THRESHOLD,
            r.free_mem_threshold == FREE_MEM_THRESHOLD,
            r.wf(),
    {
        SizingPolicy {
            swap_delta_threshold: SWAP_DELTA_THRESHOLD,
            free_mem_threshold: FREE_MEM_THRESHOLD,
        }
    }
}

/// One sample of the system's memory metrics, in bytes.
#[derive(Clone, Copy, Debug, PartialEq, Eq)]
pub struct MemoryReading {
    pub available: u64,
    pub used_swap: u64,
}

/// The bookkeeping of adaptive sizing. `total_size` counts every accepted
/// probe and the probe under evaluation, whose size is `increment`.
#[derive(Clone, Copy, Debug, PartialEq, Eq)]
pub struct SizingState {
    pub total_size: u64,
    pub increment: u64,
    pub swap_baseline: u64,
}

/// What one evaluation decides: whether the probe under evaluation is
/// rejected, and either the state with the next probe or the final size.
#[derive(Clone, Copy, Debug, PartialEq, Eq)]
pub enum SizingStep {
    Probe { rejected: bool, next: SizingState },
    Done { rejected: bool, total: u64 },
}

/// Whether a reading shows that the last probe pushed the system toward paging.
pub open spec fn under_pressure(p: SizingPolicy, s: SizingState, r: MemoryReading) -> bool {
    r.used_swap - s.swap_baseline > p.swap_delta_threshold || r.available <= p.free_mem_threshold
}

/// One evaluation of the probe under way, given the reading taken after it.
pub open spec fn spec_step(p: SizingPolicy, s: SizingState, r: MemoryReading) -> SizingStep {
    let rejected = under_pressure(p, s, r);
    let kept = if rejected {
        (s.total_size - s.increment) as u64
    } else {
        s.total_size
    };
    let half = s.increment / 2;
    if half < p.free_mem_threshold {
        SizingStep::Done { rejected, total: kept }
    } else {
        SizingStep::Probe {
            rejected,
            next: SizingState {
                total_size: (kept + half) as u64,
                increment: half,
                swap_baseline: s.swap_baseline,
            },
        }
    }
}

impl SizingStep {
    pub open spec fn spec_rejected(self) -> bool {
        match self {
            SizingStep::Probe { rejected, .. } => rejected,
            SizingStep::Done { rejected, .. } => rejected,
        }
    }

    /// The size counted once this step is taken.
    pub open spec fn spec_total(self) -> u64 {
        match self {
            SizingStep::Probe { next, .. } => next.total_size,
            SizingStep::Done { total, .. } => total,
        }
    }
}

/// The state before the first evaluation: a probe of half the available memory.
pub open spec fn start_state(available: u64, swap_baseline: u64) -> SizingState {
    SizingState { total_size: available / 2, increment: available / 2, swap_baseline }
}

impl SizingState {
    /// The probe is counted in the total, and one more probe of its size fits.
    pub open spec fn wf(&self) -> bool {
        self.increment <= self.total_size && self.total_size + self.increment <= u64::MAX
    }

    /// The first probe takes half of the available memory.
    pub fn start(available: u64, swap_baseline: u64) -> (r: Self)
        ensures
            r == start_state(available, swap_baseline),
            r.total_size == available / 2,
            r.increment == available / 2,
            r.swap_baseline == swap_baseline,
            r.wf(),
            r.total_size + r.increment <= available,
    {
        let half = available / 2;
        SizingState { total_size: half, increment: half, swap_baseline }
    }

    /// Evaluates the probe under way against the reading taken after it: it is
    /// rejected, and taken out of the total, when swap use grew by more than the
    /// threshold since the baseline or available memory is at or under the
    /// floor. Sizing stops when the next probe would be smaller than the floor.
    pub fn step(&self, policy: &SizingPolicy, reading: MemoryReading) -> (r: SizingStep)
        requires
            self.wf(),
        ensures
            r == spec_step(*policy, *self, reading),
            r matches SizingStep::Probe { next, .. } ==> next.wf() && next.total_size
                + next.increment <= self.total_size + self.increment,
    {
        let rejected = (reading.used_swap > self.swap_baseline && reading.used_swap
            - self.swap_baseline > policy.swap_delta_threshold) || reading.available
            <= policy.free_mem_threshold;
        let kept = if rejected {
            self.total_size - self.increment
        } else {
            self.total_size
        };
        let half = self.increment / 2;
        if half < policy.free_mem_threshold {
            SizingStep::Done { rejected, total: kept }
        } else {
            SizingStep::Probe {
                rejected,
                next: SizingState {
                    total_size: kept + half,
                    increment: half,
                    swap_baseline: self.swap_baseline,
                },
            }
        }
    }
}

/// The steps taken from `s` over the readings `rs`, one reading per step,
/// up to and including the step that finishes, or until the readings run out.
pub open spec fn run(p: SizingPolicy, s: SizingState, rs: Seq<MemoryReading>) -> Seq<SizingStep>
    decreases rs.len(),
{
    if rs.len() == 0 {
        Seq::empty()
    } else {
        let st = spec_step(p, s, rs[0]);
        match st {
            SizingStep::Done { .. } => seq![st],
            SizingStep::Probe { next, .. } => seq![st] + run(p, next, rs.drop_first()),
        }
    }
}

/// The sizes of the probes that the steps from `s` over `rs` accept.
pub open spec fn accepted_bytes(p: SizingPolicy, s: SizingState, rs: Seq<MemoryReading>) -> nat
    decreases rs.len(),
{
    if rs.len() == 0 {
        0
    } else {
        let st = spec_step(p, s, rs[0]);
        let own: nat = if st.spec_rejected() {
            0
        } else {
            s.increment as nat
        };
        match st {
            SizingStep::Done { .. } => own,
            SizingStep::Probe { next, .. } => own + accepted_bytes(p, next, rs.drop_first()),
        }
    }
}

/// Readings that never show pressure: available memory above the floor and
/// swap use never above the baseline.
pub open spec fn calm(p: SizingPolicy, baseline: u64, rs: Seq<MemoryReading>) -> bool {
    forall|i: int|
        0 <= i < rs.len() ==> rs[i].available > p.free_mem_threshold && rs[i].used_swap
            <= baseline
}

proof fn lemma_calm_run(
    p: SizingPolicy,
    s: SizingState,
    rs: Seq<MemoryReading>,
    available: u64,
    j: nat,
)
    requires
        p.wf(),
        s.wf(),
        j >= 1,
        j == 1 || s.increment >= p.free_mem_threshold,
        calm(p, s.swap_baseline, rs),
        s.total_size + s.increment <= available,
        s.increment * pow2(j) <= available,
        p.free_mem_threshold * pow2((j - 1) as nat) <= available,
        rs.len() + j >= 64,
    ensures
        ({
            let t = run(p, s, rs);
            let k = t.len();
            &&& 1 <= k
            &&& t[k - 1] is Done
            &&& forall|i: int| 0 <= i < k - 1 ==> t[i] is Probe
            &&& p.free_mem_threshold * pow2((j + k - 2) as nat) <= available
            &&& forall|i: int| 0 <= i < k ==> !t[i].spec_rejected()
            &&& forall|i: int| 0 <= i < k ==> t[i].spec_total() <= available
            &&& s.total_size <= t[0].spec_total()
            &&& forall|i: int| 0 <= i < k - 1 ==> #[trigger] t[i].spec_total() <= t[i + 1].spec_total()
        }),
    decreases rs.len(),
{
    lemma2_to64();
    lemma2_to64_rest();
    let f = p.free_mem_threshold;
    if j >= 64 {
        if j > 64 {
            lemma_pow2_strictly_increases(64, j);
        }
        assert(s.increment * pow2(j) >= pow2(j)) by (nonlinear_arith)
            requires
                s.increment >= 1,
        ;
    }
    assert(rs.len() >= 1);
    let st = spec_step(p, s, rs[0]);
    assert(rs[0].available > f && rs[0].used_swap <= s.swap_baseline);
    assert(!st.spec_rejected());
    let t = run(p, s, rs);
    match st {
        SizingStep::Done { .. } => {
            assert(t =~= seq![st]);
        },
        SizingStep::Probe { next, .. } => {
            let half = s.increment / 2;
            assert(half >= f);
            lemma_pow2_unfold(j + 1);
            assert(half * pow2(j + 1) <= available) by (nonlinear_arith)
                requires
                    half == s.increment / 2,
                    pow2(j + 1) == 2 * pow2(j),
                    s.increment * pow2(j) <= available,
            ;
            assert(f * pow2(j) <= available) by (nonlinear_arith)
                requires
                    half >= f,
                    half * pow2(j + 1) <= available,
                    pow2(j + 1) == 2 * pow2(j),
            ;
            let rest = rs.drop_first();
            assert(calm(p, next.swap_baseline, rest));
            lemma_calm_run(p, next, rest, available, j + 1);
            let tr = run(p, next, rest);
            assert(t =~= seq![st] + tr);
            assert forall|i: int| 0 <= i < t.len() - 1 implies #[trigger] t[i].spec_total() <= t[i
                + 1].spec_total() by {
                if i > 0 {
                    assert(t[i] == tr[i - 1]);
                    assert(t[i + 1] == tr[i]);
                }
            }
            assert forall|i: int| 0 <= i < t.len() implies !t[i].spec_rejected()
                && t[i].spec_total() <= available && (i < t.len() - 1 ==> t[i] is Probe) by {
                if i > 0 {
                    assert(t[i] == tr[i - 1]);
                }
            }
        },
    }
}

/// Without memory pressure, adaptive sizing from `available` bytes finishes
/// within the first 64 readings. Its number of steps `k` satisfies
/// `floor * 2^(k-1) <= available`, so `k <= log2(available / floor) + 1`; no
/// probe is rejected, and the total never decreases from one step to the next
/// and never exceeds `available`.
pub proof fn lemma_sizing_converges_without_pressure(
    p: SizingPolicy,
    available: u64,
    baseline: u64,
    rs: Seq<MemoryReading>,
)
    requires
        p.wf(),
        available >= p.free_mem_threshold,
        calm(p, baseline, rs),
        rs.len() >= 64,
    ensures
        ({
            let s = SizingState {
                total_size: available / 2,
                increment: available / 2,
                swap_baseline: baseline,
            };
            let t = run(p, s, rs);
            let k = t.len();
            &&& 1 <= k
            &&& t[k - 1] is Done
            &&& p.free_mem_threshold * pow2((k - 1) as nat) <= available
            &&& forall|i: int| 0 <= i < k ==> !t[i].spec_rejected()
            &&& forall|i: int| 0 <= i < k ==> t[i].spec_total() <= available
            &&& s.total_size <= t[0].spec_total()
            &&& forall|i: int| 0 <= i < k - 1 ==> #[trigger] t[i].spec_total() <= t[i + 1].spec_total()
        }),
{
    let s = SizingState { total_size: available / 2, increment: available / 2, swap_baseline: baseline };
    lemma2_to64();
    assert(s.increment * pow2(1) <= available);
    assert(p.free_mem_threshold * pow2(0) <= available);
    lemma_calm_run(p, s, rs, available, 1);
}

/// Rejected probes count for nothing: whenever a run finishes, its total is
/// the sum of the probes it accepted, over the starting state's accepted
/// bytes. A step whose reading shows swap use grown beyond the threshold
/// rejects its probe.
pub proof fn lemma_rejected_probes_excluded(p: SizingPolicy, s: SizingState, rs: Seq<MemoryReading>)
    requires
        s.wf(),
    ensures
        ({
            let t = run(p, s, rs);
            &&& t.len() > 0 && t[t.len() - 1] is Done ==> t[t.len() - 1].spec_total()
                == s.total_size - s.increment + accepted_bytes(p, s, rs)
            &&& rs.len() > 0 && rs[0].used_swap - s.swap_baseline > p.swap_delta_threshold
                ==> t[0].spec_rejected()
        }),
    decreases rs.len(),
{
    if rs.len() > 0 {
        let st = spec_step(p, s, rs[0]);
        let t = run(p, s, rs);
        match st {
            SizingStep::Done { .. } => {
                assert(t =~= seq![st]);
            },
            SizingStep::Probe { next, .. } => {
                let rest = rs.drop_first();
                let tr = run(p, next, rest);
                assert(t =~= seq![st] + tr);
                if tr.len() > 0 {
                    assert(next.wf()) by {
                        assert(next.increment <= next.total_size);
                    }
                    lemma_rejected_probes_excluded(p, next, rest);
                    assert(t[t.len() - 1] == tr[tr.len() - 1]);
                }
            },
        }
    }
}

/// The state reached after one evaluation per reading of `rs`, none of which
/// finished; `None` when one of them finished.
pub open spec fn state_after(p: SizingPolicy, s: SizingState, rs: Seq<MemoryReading>) -> Option<
    SizingState,
>
    decreases rs.len(),
{
    if rs.len() == 0 {
        Some(s)
    } else {
        match spec_step(p, s, rs[0]) {
            SizingStep::Probe { next, .. } => state_after(p, next, rs.drop_first()),
            SizingStep::Done { .. } => None,
        }
    }
}

proof fn lemma_run_push(
    p: SizingPolicy,
    s0: SizingState,
    rs: Seq<MemoryReading>,
    s: SizingState,
    r: MemoryReading,
)
    requires
        state_after(p, s0, rs) == Some(s),
    ensures
        run(p, s0, rs.push(r)) == run(p, s0, rs) + seq![spec_step(p, s, r)],
        state_after(p, s0, rs.push(r)) == match spec_step(p, s, r) {
            SizingStep::Probe { next, .. } => Some(next),
            SizingStep::Done { .. } => None::<SizingState>,
        },
    decreases rs.len(),
{
    if rs.len() == 0 {
        let one = rs.push(r);
        assert(one.drop_first() =~= Seq::<MemoryReading>::empty());
        assert(one[0] == r);
        assert(s == s0);
        assert(run(p, s0, rs) == Seq::<SizingStep>::empty());
        match spec_step(p, s, r) {
            SizingStep::Probe { next, .. } => {
                assert(run(p, next, Seq::<MemoryReading>::empty()) == Seq::<SizingStep>::empty());
                assert(state_after(p, next, Seq::<MemoryReading>::empty()) == Some(next));
            },
            SizingStep::Done { .. } => {},
        }
        assert(run(p, s0, one) =~= run(p, s0, rs) + seq![spec_step(p, s, r)]);
    } else {
        assert(rs.push(r)[0] == rs[0]);
        assert(rs.push(r).drop_first() =~= rs.drop_first().push(r));
        match spec_step(p, s0, rs[0]) {
            SizingStep::Probe { next, .. } => {
                lemma_run_push(p, next, rs.drop_first(), s, r);
                assert(run(p, s0, rs.push(r)) =~= run(p, s0, rs) + seq![spec_step(p, s, r)]);
            },
            SizingStep::Done { .. } => {},
        }
    }
}

/// What a budget of `available` bytes becomes: capped at what one buffer can
/// span on this machine.
pub open spec fn sizing_budget(available: u64) -> u64 {
    if available <= usize::MAX {
        available
    } else {
        usize::MAX as u64
    }
}

/// The result of adaptive sizing, with the readings it started from and the
/// readings taken after each probe.
#[derive(Debug, PartialEq, Eq)]
pub struct SizingOutcome {
    pub initial_available: u64,
    pub swap_baseline: u64,
    pub readings: Vec<MemoryReading>,
    pub total: u64,
}

impl SizingOutcome {
    /// The steps from the first probe over the readings taken finish, and
    /// finish at `total`.
    pub open spec fn consistent(&self, p: SizingPolicy) -> bool {
        let t = run(p, start_state(sizing_budget(self.initial_available), self.swap_baseline), self.readings@);
        &&& t.len() == self.readings@.len()
        &&& t.len() > 0
        &&& t.last() is Done
        &&& t.last().spec_total() == self.total
    }
}

#[verifier::external_type_specification]
#[verifier::external_body]
pub struct ExSystem(System);

/// Relies on sysinfo's `System::new_with_specifics`: a handle on the system
/// whose memory figures are loaded.
#[verifier::external_body]
fn open_memory_metrics() -> System {
    System::new_with_specifics(RefreshKind::new().with_memory())
}

/// Relies on sysinfo's `SystemExt::refresh_specifics`: the memory figures are
/// sampled again.
#[verifier::external_body]
fn refresh_memory_metrics(sys: &mut System) {
    sys.refresh_specifics(RefreshKind::new().with_memory())
}

/// Relies on sysinfo's `SystemExt::available_memory`: the memory available for
/// reuse at the last sample, in bytes.
#[verifier::external_body]
fn available_memory(sys: &System) -> u64 {
    sys.available_memory()
}

/// Relies on sysinfo's `SystemExt::used_swap`: the swap in use at the last
/// sample, in bytes.
#[verifier::external_body]
fn used_swap(sys: &System) -> u64 {
    sys.used_swap()
}

/// Starts adaptive sizing from the first reading: the budget is the available
/// memory, capped at what one buffer can span on this machine, and the first
/// probe takes half of it. `None` when the reading shows no available memory,
/// which means the metrics could not be read.
pub fn start_sizing(available: u64, swap_baseline: u64) -> (r: Option<SizingState>)
    ensures
        r is None <==> available == 0,
        r matches Some(s) ==> {
            &&& s == start_state(sizing_budget(available), swap_baseline)
            &&& s.wf()
            &&& s.total_size + s.increment <= sizing_budget(available)
        },
        sizing_budget(available) <= available,
        sizing_budget(available) <= usize::MAX,
{
    if available == 0 {
        return None;
    }
    let budget: u64 = if available <= usize::MAX as u64 {
        available
    } else {
        usize::MAX as u64
    };
    Some(SizingState::start(budget, swap_baseline))
}

/// Finds the largest detector size that can be held without paging: probe
/// chunks are allocated and filled, each evaluated against a fresh sample of the
/// system's memory, and released again when rejected. The size is where the
/// sizing steps finish over the readings taken. Fails with the first reading
/// when it shows no available memory at all, which means the metrics could not
/// be read.
pub fn choose_detector_size(policy: &SizingPolicy) -> (r: Result<SizingOutcome, MemoryReading>)
    requires
        policy.wf(),
    ensures
        match r {
            Ok(o) => o.initial_available > 0 && o.total <= o.initial_available && o.consistent(
                *policy,
            ),
            Err(first) => first.available == 0,
        },
{
    let mut sys = open_memory_metrics();
    let baseline = used_swap(&sys);
    let initial_available = available_memory(&sys);
    let mut state = match start_sizing(initial_available, baseline) {
        Some(s) => s,
        None => {
            return Err(MemoryReading { available: initial_available, used_swap: baseline });
        },
    };
    let ghost budget = sizing_budget(initial_available);
    let ghost s0 = state;
    let mut taken: Vec<MemoryReading> = Vec::new();
    let mut probes: Vec<Detector> = Vec::new();
    probes.push(Detector::new(PROBE_FILL, state.increment as usize));
    loop
        invariant
            policy.wf(),
            state.wf(),
            state.total_size + state.increment <= budget,
            budget <= initial_available,
            initial_available > 0,
            budget <= usize::MAX,
            budget == sizing_budget(initial_available),
            s0 == start_state(budget, baseline),
            state_after(*policy, s0, taken@) == Some(state),
            run(*policy, s0, taken@).len() == taken@.len(),
        decreases state.increment,
    {
        refresh_memory_metrics(&mut sys);
        let reading = MemoryReading { available: available_memory(&sys), used_swap: used_swap(&sys) };
        proof {
            lemma_run_push(*policy, s0, taken@, state, reading);
        }
        taken.push(reading);
        match state.step(policy, reading) {
            SizingStep::Probe { rejected, next } => {
                if rejected {
                    probes.pop();
                }
                state = next;
                probes.push(Detector::new(PROBE_FILL, state.increment as usize));
            },
            SizingStep::Done { rejected, total } => {
                if rejected {
                    probes.pop();
                }
                proof {
                    let t = run(*policy, s0, taken@);
                    assert(t.last() == spec_step(*policy, state, reading));
                }
                return Ok(
                    SizingOutcome { initial_available, swap_baseline: baseline, readings: taken, total },
                );
            },
        }
    }
}

proof fn lemma_run_extend(p: SizingPolicy, s: SizingState, rs: Seq<MemoryReading>, extra: Seq<MemoryReading>)
    requires
        run(p, s, rs).len() > 0,
        run(p, s, rs).last() is Done,
    ensures
        run(p, s, rs + extra) == run(p, s, rs),
    decreases rs.len(),
{
    assert((rs + extra)[0] == rs[0]);
    assert((rs + extra).drop_first() =~= rs.drop_first() + extra);
    match spec_step(p, s, rs[0]) {
        SizingStep::Probe { next, .. } => {
            let rest = run(p, next, rs.drop_first());
            assert(run(p, s, rs) == seq![spec_step(p, s, rs[0])] + rest);
            if rest.len() == 0 {
                assert(run(p, s, rs).last() == spec_step(p, s, rs[0]));
            }
            assert(rest.last() == run(p, s, rs).last());
            lemma_run_extend(p, next, rs.drop_first(), extra);
        },
        SizingStep::Done { .. } => {},
    }
}

/// Adaptive sizing as it ran: when none of the readings it took showed
/// pressure, the number of readings `k` satisfies `floor * 2^(k-1) <= budget`
/// (so `k <= log2(budget / floor) + 1`), where the budget is the available
/// memory first read, capped at `usize::MAX`. No probe was rejected, the
/// total never decreased from one step to the next, and it stayed within the
/// budget.
pub proof fn lemma_outcome_without_pressure(p: SizingPolicy, o: SizingOutcome)
    requires
        p.wf(),
        o.consistent(p),
        sizing_budget(o.initial_available) >= p.free_mem_threshold,
        calm(p, o.swap_baseline, o.readings@),
    ensures
        ({
            let budget = sizing_budget(o.initial_available);
            let t = run(p, start_state(budget, o.swap_baseline), o.readings@);
            let k = o.readings@.len();
            &&& p.free_mem_threshold * pow2((k - 1) as nat) <= budget
            &&& forall|i: int| 0 <= i < k ==> !t[i].spec_rejected()
            &&& forall|i: int| 0 <= i < k ==> t[i].spec_total() <= budget
            &&& forall|i: int| 0 <= i < k - 1 ==> #[trigger] t[i].spec_total() <= t[i + 1].spec_total()
            &&& o.total <= budget
        }),
{
    let budget = sizing_budget(o.initial_available);
    let s = start_state(budget, o.swap_baseline);
    let rs = o.readings@;
    let pad = Seq::new(64, |i: int| MemoryReading { available: u64::MAX, used_swap: o.swap_baseline });
    lemma_run_extend(p, s, rs, pad);
    assert(calm(p, o.swap_baseline, rs + pad)) by {
        assert forall|i: int| 0 <= i < (rs + pad).len() implies (rs + pad)[i].available
            > p.free_mem_threshold && (rs + pad)[i].used_swap <= o.swap_baseline by {
            if i >= rs.len() {
                assert((rs + pad)[i] == pad[i - rs.len()]);
            } else {
                assert((rs + pad)[i] == rs[i]);
            }
        }
    }
    lemma_sizing_converges_without_pressure(p, budget, o.swap_baseline, rs + pad);
}

/// Adaptive sizing as it ran leaves rejected probes out: its total is the sum
/// of the probes that the readings it took accepted.
pub proof fn lemma_outcome_counts_accepted_probes(p: SizingPolicy, o: SizingOutcome)
    requires
        o.consistent(p),
    ensures
        o.total == accepted_bytes(
            p,
            start_state(sizing_budget(o.initial_available), o.swap_baseline),
            o.readings@,
        ),
{
    let s = start_state(sizing_budget(o.initial_available), o.swap_baseline);
    lemma_rejected_probes_excluded(p, s, o.readings@);
}

proof fn lemma_run_within_budget(p: SizingPolicy, s: SizingState, rs: Seq<MemoryReading>, budget: nat)
    requires
        s.wf(),
        s.total_size + s.increment <= budget,
    ensures
        forall|i: int| 0 <= i < run(p, s, rs).len() ==> #[trigger] run(p, s, rs)[i].spec_total() <= budget,
    decreases rs.len(),
{
    if rs.len() > 0 {
        let st = spec_step(p, s, rs[0]);
        let t = run(p, s, rs);
        match st {
            SizingStep::Done { .. } => {
                assert(t =~= seq![st]);
            },
            SizingStep::Probe { next, .. } => {
                let rest = rs.drop_first();
                let tr = run(p, next, rest);
                assert(t =~= seq![st] + tr);
                assert(next.wf());
                lemma_run_within_budget(p, next, rest, budget);
                assert forall|i: int| 0 <= i < t.len() implies #[trigger] t[i].spec_total() <= budget by {
                    if i > 0 {
                        assert(t[i] == tr[i - 1]);
                    }
                }
            },
        }
    }
}

/// Adaptive sizing as it ran, whatever the readings: after every step the
/// total stays within the budget, the available memory first read capped at
/// `usize::MAX`.
pub proof fn lemma_outcome_within_budget(p: SizingPolicy, o: SizingOutcome)
    requires
        o.consistent(p),
    ensures
        ({
            let budget = sizing_budget(o.initial_available);
            let t = run(p, start_state(budget, o.swap_baseline), o.readings@);
            &&& forall|i: int| 0 <= i < t.len() ==> #[trigger] t[i].spec_total() <= budget
            &&& budget <= o.initial_available
        }),
{
    let budget = sizing_budget(o.initial_available);
    lemma_run_within_budget(p, start_state(budget, o.swap_baseline), o.readings@, budget as nat);
}

} // verus!
