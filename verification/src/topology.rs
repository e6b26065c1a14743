//! Consumer topology: stages of consumers, how each stage runs, and the
//! registration of a planned topology with a pipeline.
//!
//! Consumers are added stage by stage. A consumer of stage `s > 0` waits for
//! every consumer of stage `s - 1`. All consumers of one stage access events
//! the same way; a stage of several mutable consumers runs as a worker pool
//! (each event goes to one of them), any other stage runs sequentially (each
//! consumer sees every event).

use vstd::prelude::*;
use crate::error::{DisruptorError, DisruptorResult};
use crate::event_factory::EventFactory;
use crate::pipeline::{dep_min, lemma_dep_min, Pipeline, PipelineView};
use crate::producer_type::ProducerType;
use crate::ring_buffer::{valid_ring_size, RingBuffer, SlotPadding};
use crate::sequencer::{initial_sequencer, MultiProducerSequencer, SequencerEnum, SequencerView, SingleProducerSequencer};
use crate::wait_strategy::WaitStrategy;

verus! {

/// How a consumer accesses ring slots on its stage.
#[derive(Debug, Clone, Copy, PartialEq, Eq, Structural)]
pub enum ConsumerAccess {
    /// `&mut E`: exclusive sequential processing, or a worker pool's claim.
    Mutable,
    /// `&E`: broadcast fan-out, every consumer sees every sequence.
    Readonly,
}

/// A planned consumer: its stage and its access kind.
#[derive(Debug, Clone, Copy, PartialEq, Eq, Structural)]
pub struct ConsumerSpec {
    /// The stage (0: follows the producers).
    pub stage_index: usize,
    /// How it accesses events.
    pub access: ConsumerAccess,
}

/// How the consumers of one stage run.
#[derive(Debug, Clone, Copy, PartialEq, Eq, Structural)]
pub enum StageMode {
    /// Every consumer processes every event in order.
    Sequential,
    /// The consumers share one work sequence; each event goes to one of them.
    WorkPool,
}

/// How one registered consumer runs.
#[derive(Debug, Clone, Copy, PartialEq, Eq, Structural)]
pub enum RunMode {
    /// Exclusive sequential drain.
    Sequential,
    /// A worker of the given pool.
    WorkPool(usize),
}

/// Where a planned consumer was registered and how it runs.
#[derive(Debug, Clone, Copy, PartialEq, Eq, Structural)]
pub struct Placement {
    /// Its consumer index in the pipeline.
    pub consumer: usize,
    /// How it runs.
    pub mode: RunMode,
}

/// Number of consumers planned on stage `s`.
pub open spec fn stage_width(specs: Seq<ConsumerSpec>, s: int) -> nat
    decreases specs.len(),
{
    if specs.len() == 0 {
        0
    } else {
        stage_width(specs.drop_last(), s) + if specs.last().stage_index == s {
            1nat
        } else {
            0nat
        }
    }
}

/// The access kind of stage `s`: that of its last consumer (mutable for an
/// empty stage).
pub open spec fn stage_access(specs: Seq<ConsumerSpec>, s: int) -> ConsumerAccess
    decreases specs.len(),
{
    if specs.len() == 0 {
        ConsumerAccess::Mutable
    } else if specs.last().stage_index == s {
        specs.last().access
    } else {
        stage_access(specs.drop_last(), s)
    }
}

/// How stage `s` runs: a worker pool exactly when it has several consumers
/// and they are mutable.
pub open spec fn stage_mode(specs: Seq<ConsumerSpec>, s: int) -> StageMode {
    if stage_width(specs, s) > 1 && stage_access(specs, s) == ConsumerAccess::Mutable {
        StageMode::WorkPool
    } else {
        StageMode::Sequential
    }
}

/// The number of stages: one more than the highest stage index (0 when empty).
pub open spec fn stage_count_of(specs: Seq<ConsumerSpec>) -> nat
    decreases specs.len(),
{
    if specs.len() == 0 {
        0
    } else {
        let rest = stage_count_of(specs.drop_last());
        if specs.last().stage_index + 1 > rest {
            (specs.last().stage_index + 1) as nat
        } else {
            rest
        }
    }
}

/// The positions, in order, of the consumers in `prefix` that a consumer of
/// stage `stage` waits for: those of stage `stage - 1` (none for stage 0).
pub open spec fn upstream_of(prefix: Seq<ConsumerSpec>, stage: usize) -> Seq<usize>
    decreases prefix.len(),
{
    if prefix.len() == 0 {
        Seq::empty()
    } else {
        let rest = upstream_of(prefix.drop_last(), stage);
        if stage > 0 && prefix.last().stage_index + 1 == stage {
            rest.push((prefix.len() - 1) as usize)
        } else {
            rest
        }
    }
}

/// A plan in which every consumer of a later stage has an earlier consumer
/// on the stage before it, and one stage never mixes access kinds.
pub open spec fn plan_ordered(specs: Seq<ConsumerSpec>) -> bool {
    &&& forall|i: int|
        0 <= i < specs.len() && #[trigger] specs[i].stage_index > 0 ==> exists|j: int|
            0 <= j < i && #[trigger] specs[j].stage_index + 1 == specs[i].stage_index
    &&& forall|i: int, j: int|
        0 <= i < specs.len() && 0 <= j < specs.len() && #[trigger] specs[i].stage_index
            == #[trigger] specs[j].stage_index ==> specs[i].access == specs[j].access
}

/// A consumer of the stage before `stage` in `prefix` is among those a
/// consumer of `stage` waits for.
pub proof fn lemma_upstream_contains(prefix: Seq<ConsumerSpec>, stage: usize, j: int)
    requires
        prefix.len() <= usize::MAX,
        0 <= j < prefix.len(),
        stage > 0,
        prefix[j].stage_index + 1 == stage,
    ensures
        exists|k: int| 0 <= k < upstream_of(prefix, stage).len() && #[trigger] upstream_of(prefix, stage)[k] == j,
    decreases prefix.len(),
{
    let d = prefix.drop_last();
    let rest = upstream_of(d, stage);
    let up = upstream_of(prefix, stage);
    if j == prefix.len() - 1 {
        assert(up == rest.push((prefix.len() - 1) as usize));
        assert(up[rest.len() as int] == j);
    } else {
        lemma_upstream_contains(d, stage, j);
        let k = choose|k: int| 0 <= k < rest.len() && #[trigger] rest[k] == j;
        if stage > 0 && prefix.last().stage_index + 1 == stage {
            assert(up == rest.push((prefix.len() - 1) as usize));
            assert(up[k] == j);
        } else {
            assert(up == rest);
            assert(up[k] == j);
        }
    }
}

proof fn lemma_upstream_below(prefix: Seq<ConsumerSpec>, stage: usize)
    requires
        prefix.len() <= usize::MAX,
    ensures
        forall|k: int|
            0 <= k < upstream_of(prefix, stage).len() ==> #[trigger] upstream_of(prefix, stage)[k]
                < prefix.len() && prefix[upstream_of(prefix, stage)[k] as int].stage_index + 1 == stage,
    decreases prefix.len(),
{
    if prefix.len() > 0 {
        let d = prefix.drop_last();
        let rest = upstream_of(d, stage);
        let up = upstream_of(prefix, stage);
        lemma_upstream_below(d, stage);
        if stage > 0 && prefix.last().stage_index + 1 == stage {
            assert(up == rest.push((prefix.len() - 1) as usize));
            assert forall|k: int| 0 <= k < up.len() implies #[trigger] up[k] < prefix.len()
                && prefix[up[k] as int].stage_index + 1 == stage by {
                if k < rest.len() {
                    assert(up[k] == rest[k]);
                    assert(prefix[rest[k] as int] == d[rest[k] as int]);
                } else {
                    assert(up[k] == prefix.len() - 1);
                }
            }
        } else {
            assert(up == rest);
            assert forall|k: int| 0 <= k < up.len() implies #[trigger] up[k] < prefix.len()
                && prefix[up[k] as int].stage_index + 1 == stage by {
                assert(up[k] == rest[k]);
                assert(prefix[rest[k] as int] == d[rest[k] as int]);
            }
        }
    }
}

/// Stage `s` has a consumer exactly when its width is at least one, and two
/// exactly when it is more than one.
pub proof fn lemma_width_counts(specs: Seq<ConsumerSpec>, s: int)
    ensures
        stage_width(specs, s) >= 1 <==> exists|i: int| 0 <= i < specs.len() && #[trigger] specs[i].stage_index == s,
        stage_width(specs, s) > 1 <==> exists|i: int, j: int|
            0 <= i < j < specs.len() && #[trigger] specs[i].stage_index == s && #[trigger] specs[j].stage_index == s,
    decreases specs.len(),
{
    if specs.len() > 0 {
        let d = specs.drop_last();
        let m = specs.len() - 1;
        lemma_width_counts(d, s);
        assert forall|i: int| 0 <= i < d.len() implies #[trigger] d[i] == specs[i] by {}
        if exists|i: int| 0 <= i < specs.len() && #[trigger] specs[i].stage_index == s {
            let i = choose|i: int| 0 <= i < specs.len() && #[trigger] specs[i].stage_index == s;
            if i < m {
                assert(d[i].stage_index == s);
            }
        }
        if exists|i: int, j: int|
            0 <= i < j < specs.len() && #[trigger] specs[i].stage_index == s && #[trigger] specs[j].stage_index == s {
            let (i, j) = choose|i: int, j: int|
                0 <= i < j < specs.len() && #[trigger] specs[i].stage_index == s && #[trigger] specs[j].stage_index == s;
            assert(d[i].stage_index == s);
            if j < m {
                assert(d[j].stage_index == s);
            }
        }
        if exists|i: int| 0 <= i < d.len() && #[trigger] d[i].stage_index == s {
            let i = choose|i: int| 0 <= i < d.len() && #[trigger] d[i].stage_index == s;
            assert(specs[i].stage_index == s);
            if specs.last().stage_index == s {
                assert(specs[m].stage_index == s);
            }
        }
        if exists|i: int, j: int|
            0 <= i < j < d.len() && #[trigger] d[i].stage_index == s && #[trigger] d[j].stage_index == s {
            let (i, j) = choose|i: int, j: int|
                0 <= i < j < d.len() && #[trigger] d[i].stage_index == s && #[trigger] d[j].stage_index == s;
            assert(specs[i].stage_index == s && specs[j].stage_index == s);
        }
    }
}

/// The access of stage `s` is that of a consumer on it, when it has one,
/// and so is mutable when all of them are.
pub proof fn lemma_access_of_member(specs: Seq<ConsumerSpec>, s: int)
    ensures
        (exists|i: int| 0 <= i < specs.len() && #[trigger] specs[i].stage_index == s) ==> exists|k: int|
            0 <= k < specs.len() && #[trigger] specs[k].stage_index == s && specs[k].access == stage_access(
                specs,
                s,
            ),
    decreases specs.len(),
{
    if specs.len() > 0 {
        let d = specs.drop_last();
        let m = specs.len() - 1;
        lemma_access_of_member(d, s);
        if specs.last().stage_index == s {
            assert(specs[m].stage_index == s);
        } else if exists|i: int| 0 <= i < specs.len() && #[trigger] specs[i].stage_index == s {
            let i = choose|i: int| 0 <= i < specs.len() && #[trigger] specs[i].stage_index == s;
            assert(i < m);
            assert(d[i].stage_index == s);
            let k = choose|k: int| 0 <= k < d.len() && #[trigger] d[k].stage_index == s && d[k].access == stage_access(d, s);
            assert(specs[k] == d[k]);
        }
    }
}

proof fn lemma_width_step(specs: Seq<ConsumerSpec>, n: int, s: int)
    requires
        0 <= n < specs.len(),
    ensures
        stage_width(specs.take(n + 1), s) == stage_width(specs.take(n), s) + if specs[n].stage_index
            == s {
            1nat
        } else {
            0nat
        },
        stage_access(specs.take(n + 1), s) == if specs[n].stage_index == s {
            specs[n].access
        } else {
            stage_access(specs.take(n), s)
        },
        stage_count_of(specs.take(n + 1)) == if specs[n].stage_index + 1 > stage_count_of(
            specs.take(n),
        ) {
            (specs[n].stage_index + 1) as nat
        } else {
            stage_count_of(specs.take(n))
        },
        upstream_of(specs.take(n + 1), specs[n].stage_index) == upstream_of(
            specs.take(n),
            specs[n].stage_index,
        ),
{
    assert(specs.take(n + 1).drop_last() =~= specs.take(n));
    assert(specs.take(n + 1).last() == specs[n]);
}

/// The number of stages of `consumers`.
pub fn stage_count(consumers: &Vec<ConsumerSpec>) -> (n: usize)
    requires
        forall|i: int| 0 <= i < consumers@.len() ==> #[trigger] consumers@[i].stage_index < usize::MAX,
    ensures
        n == stage_count_of(consumers@),
        forall|i: int| 0 <= i < consumers@.len() ==> #[trigger] consumers@[i].stage_index < n,
{
    let mut n: usize = 0;
    let mut i: usize = 0;
    while i < consumers.len()
        invariant
            i <= consumers@.len(),
            forall|j: int| 0 <= j < consumers@.len() ==> #[trigger] consumers@[j].stage_index < usize::MAX,
            n == stage_count_of(consumers@.take(i as int)),
            forall|j: int| 0 <= j < i ==> #[trigger] consumers@[j].stage_index < n,
        decreases consumers@.len() - i,
    {
        proof {
            lemma_width_step(consumers@, i as int, 0);
        }
        let s = consumers[i].stage_index;
        if s + 1 > n {
            n = s + 1;
        }
        i = i + 1;
    }
    proof {
        assert(consumers@.take(consumers@.len() as int) =~= consumers@);
    }
    n
}

/// How each of the `stage_count` stages of `consumers` runs: a worker pool
/// exactly when the stage has several mutable consumers.
pub fn stage_run_modes(consumers: &Vec<ConsumerSpec>, stage_count: usize) -> (modes: Vec<StageMode>)
    ensures
        modes@.len() == stage_count,
        forall|s: int| 0 <= s < stage_count ==> #[trigger] modes@[s] == stage_mode(consumers@, s),
        forall|s: int|
            0 <= s < stage_count && (exists|i: int, j: int|
                0 <= i < j < consumers@.len() && #[trigger] consumers@[i].stage_index == s
                    && #[trigger] consumers@[j].stage_index == s) && (forall|k: int|
                0 <= k < consumers@.len() && #[trigger] consumers@[k].stage_index == s ==> consumers@[k].access
                    == ConsumerAccess::Mutable) ==> #[trigger] modes@[s] == StageMode::WorkPool,
        forall|s: int|
            0 <= s < stage_count && #[trigger] modes@[s] == StageMode::WorkPool ==> (exists|i: int, j: int|
                0 <= i < j < consumers@.len() && #[trigger] consumers@[i].stage_index == s
                    && #[trigger] consumers@[j].stage_index == s) && (exists|k: int|
                0 <= k < consumers@.len() && #[trigger] consumers@[k].stage_index == s && consumers@[k].access
                    == ConsumerAccess::Mutable),
        forall|s: int|
            0 <= s < stage_count && (forall|k: int|
                0 <= k < consumers@.len() && #[trigger] consumers@[k].stage_index == s ==> consumers@[k].access
                    == ConsumerAccess::Readonly) ==> #[trigger] modes@[s] == StageMode::Sequential,
{
    let mut widths: Vec<usize> = Vec::new();
    let mut access: Vec<ConsumerAccess> = Vec::new();
    let mut s: usize = 0;
    while s < stage_count
        invariant
            s <= stage_count,
            widths@.len() == s,
            access@.len() == s,
            forall|t: int| 0 <= t < s ==> #[trigger] widths@[t] == 0,
            forall|t: int| 0 <= t < s ==> #[trigger] access@[t] == ConsumerAccess::Mutable,
        decreases stage_count - s,
    {
        widths.push(0);
        access.push(ConsumerAccess::Mutable);
        s = s + 1;
    }
    let mut i: usize = 0;
    while i < consumers.len()
        invariant
            i <= consumers@.len(),
            widths@.len() == stage_count,
            access@.len() == stage_count,
            forall|t: int| 0 <= t < stage_count ==> #[trigger] widths@[t] == stage_width(
                consumers@.take(i as int),
                t,
            ) || (widths@[t] == usize::MAX && stage_width(consumers@.take(i as int), t) > 1),
            forall|t: int| 0 <= t < stage_count ==> #[trigger] access@[t] == stage_access(
                consumers@.take(i as int),
                t,
            ),
        decreases consumers@.len() - i,
    {
        let c = consumers[i];
        proof {
            assert forall|t: int| 0 <= t < stage_count implies stage_width(
                consumers@.take(i + 1),
                t,
            ) == stage_width(consumers@.take(i as int), t) + if consumers@[i as int].stage_index == t {
                1nat
            } else {
                0nat
            } && stage_access(consumers@.take(i + 1), t) == if consumers@[i as int].stage_index == t {
                consumers@[i as int].access
            } else {
                stage_access(consumers@.take(i as int), t)
            } by {
                lemma_width_step(consumers@, i as int, t);
            }
        }
        if c.stage_index < stage_count {
            let w = widths[c.stage_index];
            if w < usize::MAX {
                widths.set(c.stage_index, w + 1);
            }
            access.set(c.stage_index, c.access);
        }
        i = i + 1;
    }
    proof {
        assert(consumers@.take(consumers@.len() as int) =~= consumers@);
    }
    let mut modes: Vec<StageMode> = Vec::new();
    let mut t: usize = 0;
    while t < stage_count
        invariant
            t <= stage_count,
            widths@.len() == stage_count,
            access@.len() == stage_count,
            modes@.len() == t,
            forall|u: int| 0 <= u < stage_count ==> #[trigger] widths@[u] == stage_width(consumers@, u)
                || (widths@[u] == usize::MAX && stage_width(consumers@, u) > 1),
            forall|u: int| 0 <= u < stage_count ==> #[trigger] access@[u] == stage_access(consumers@, u),
            forall|u: int| 0 <= u < t ==> #[trigger] modes@[u] == stage_mode(consumers@, u as int),
        decreases stage_count - t,
    {
        if widths[t] > 1 && access[t] == ConsumerAccess::Mutable {
            modes.push(StageMode::WorkPool);
        } else {
            modes.push(StageMode::Sequential);
        }
        t = t + 1;
    }
    proof {
        assert forall|s: int| 0 <= s < stage_count implies {
            &&& (exists|i: int, j: int|
                0 <= i < j < consumers@.len() && #[trigger] consumers@[i].stage_index == s
                    && #[trigger] consumers@[j].stage_index == s) <==> stage_width(consumers@, s) > 1
            &&& stage_width(consumers@, s) > 1 ==> exists|k: int|
                0 <= k < consumers@.len() && #[trigger] consumers@[k].stage_index == s && consumers@[k].access
                    == stage_access(consumers@, s)
        } by {
            lemma_width_counts(consumers@, s);
            lemma_access_of_member(consumers@, s);
        }
    }
    modes
}

/// The positions of the consumers before position `i` that consumer `i`
/// waits for.
fn upstream_indices(consumers: &Vec<ConsumerSpec>, i: usize) -> (deps: Vec<usize>)
    requires
        i < consumers@.len(),
    ensures
        deps@ == upstream_of(consumers@.take(i as int), consumers@[i as int].stage_index),
{
    let stage = consumers[i].stage_index;
    let mut deps: Vec<usize> = Vec::new();
    let mut j: usize = 0;
    while j < i
        invariant
            j <= i < consumers@.len(),
            stage == consumers@[i as int].stage_index,
            deps@ == upstream_of(consumers@.take(j as int), stage),
        decreases i - j,
    {
        proof {
            assert(consumers@.take(j + 1).drop_last() =~= consumers@.take(j as int));
            assert(consumers@.take(j + 1).last() == consumers@[j as int]);
        }
        if stage > 0 && consumers[j].stage_index == stage - 1 {
            deps.push(j);
        }
        j = j + 1;
    }
    proof {
        assert(consumers@.take(i as int) =~= consumers@.take(j as int));
    }
    deps
}

/// The pool a placement puts its consumer in.
pub open spec fn pool_of_mode(m: RunMode) -> Option<usize> {
    match m {
        RunMode::WorkPool(k) => Some(k),
        RunMode::Sequential => None,
    }
}

/// `w` holds the consumers registered for `consumers`, placed as
/// `placements` says, all starting at `start`: consumer `i` has index `i` and
/// waits for the consumers of the stage before its own planned before it; a
/// worker-pool stage has one pool of its own, with its work sequence at `start`.
pub open spec fn assembled<E>(
    consumers: Seq<ConsumerSpec>,
    start: int,
    w: PipelineView<E>,
    placements: Seq<Placement>,
) -> bool {
    &&& placements.len() == consumers.len()
    &&& w.seq.gating.len() == consumers.len()
    &&& forall|i: int| 0 <= i < consumers.len() ==> #[trigger] placements[i].consumer == i
    &&& forall|i: int| 0 <= i < consumers.len() ==> #[trigger] w.seq.gating[i] == Some(start as i64)
    &&& forall|i: int|
        0 <= i < consumers.len() ==> #[trigger] w.deps[i] == upstream_of(
            consumers.take(i),
            consumers[i].stage_index,
        )
    &&& forall|i: int|
        0 <= i < consumers.len() ==> (#[trigger] placements[i].mode is WorkPool <==> stage_mode(
            consumers,
            consumers[i].stage_index as int,
        ) == StageMode::WorkPool)
    &&& forall|i: int|
        0 <= i < consumers.len() ==> #[trigger] w.pools[i] == pool_of_mode(placements[i].mode)
    &&& forall|i: int, j: int|
        0 <= i < consumers.len() && 0 <= j < consumers.len() && #[trigger] placements[i].mode is WorkPool
            && #[trigger] placements[j].mode is WorkPool ==> (placements[i].mode == placements[j].mode
            <==> consumers[i].stage_index == consumers[j].stage_index)
    &&& forall|k: int| 0 <= k < w.work.len() ==> #[trigger] w.work[k] == start
}

/// Registers the planned `consumers` with a pipeline that has none yet, in
/// order, and returns where each one went.
///
/// Consumer `i` gets index `i`, waits for the consumers of the stage before
/// its own that were planned before it, and starts at the claimed sequence.
/// The consumers of a stage that runs as a worker pool share one new pool,
/// and no two stages share one.
#[verifier::rlimit(40)]
pub fn assemble<E, W: WaitStrategy>(pipeline: &mut Pipeline<E, W>, consumers: &Vec<ConsumerSpec>) -> (placements:
    Vec<Placement>)
    requires
        old(pipeline).wf(),
        old(pipeline)@.settled(),
        old(pipeline)@.seq.gating.len() == 0,
        old(pipeline)@.work.len() == 0,
        forall|i: int| 0 <= i < consumers@.len() ==> #[trigger] consumers@[i].stage_index < usize::MAX,
    ensures
        final(pipeline).wf(),
        final(pipeline).setup() == old(pipeline).setup(),
        final(pipeline)@.settled(),
        final(pipeline)@.ring == old(pipeline)@.ring,
        final(pipeline)@.seq == (SequencerView { gating: final(pipeline)@.seq.gating, ..old(pipeline)@.seq }),
        assembled(consumers@, old(pipeline)@.seq.claimed, final(pipeline)@, placements@),
{
    let ghost v = pipeline@;
    let ghost setup = pipeline.setup();
    proof {
        pipeline.lemma_view_wf();
    }
    let count = stage_count(consumers);
    let modes = stage_run_modes(consumers, count);
    let mut pool_of: Vec<Option<usize>> = Vec::new();
    let mut s: usize = 0;
    while s < count
        invariant
            s <= count,
            pool_of@.len() == s,
            forall|t: int| 0 <= t < s ==> #[trigger] pool_of@[t] is None,
        decreases count - s,
    {
        pool_of.push(None);
        s = s + 1;
    }
    let mut placements: Vec<Placement> = Vec::new();
    let mut i: usize = 0;
    while i < consumers.len()
        invariant
            i <= consumers@.len(),
            forall|j: int| 0 <= j < consumers@.len() ==> #[trigger] consumers@[j].stage_index < count,
            modes@.len() == count,
            forall|t: int| 0 <= t < count ==> #[trigger] modes@[t] == stage_mode(consumers@, t),
            pool_of@.len() == count,
            pipeline.wf(),
            pipeline.setup() == setup,
            pipeline@.settled(),
            pipeline@.ring == v.ring,
            pipeline@.seq == (SequencerView { gating: pipeline@.seq.gating, ..v.seq }),
            pipeline@.seq.gating.len() == i,
            pipeline@.deps.len() == i,
            pipeline@.pools.len() == i,
            placements@.len() == i,
            forall|j: int| 0 <= j < i ==> #[trigger] placements@[j].consumer == j,
            forall|j: int| 0 <= j < i ==> #[trigger] pipeline@.seq.gating[j] == Some(v.seq.claimed as i64),
            forall|j: int|
                0 <= j < i ==> #[trigger] pipeline@.deps[j] == upstream_of(
                    consumers@.take(j),
                    consumers@[j].stage_index,
                ),
            forall|j: int|
                0 <= j < i ==> (#[trigger] placements@[j].mode is WorkPool <==> stage_mode(
                    consumers@,
                    consumers@[j].stage_index as int,
                ) == StageMode::WorkPool),
            forall|j: int| 0 <= j < i ==> #[trigger] pipeline@.pools[j] == pool_of_mode(placements@[j].mode),
            forall|j: int|
                0 <= j < i && #[trigger] placements@[j].mode is WorkPool ==> pool_of@[consumers@[j].stage_index as int]
                    == pool_of_mode(placements@[j].mode),
            forall|t: int| 0 <= t < count && #[trigger] pool_of@[t] is Some ==> pool_of@[t]->Some_0 < pipeline@.work.len(),
            forall|t: int, u: int|
                0 <= t < count && 0 <= u < count && #[trigger] pool_of@[t] is Some && #[trigger] pool_of@[u]
                    is Some && pool_of@[t] == pool_of@[u] ==> t == u,
            forall|k: int| 0 <= k < pipeline@.work.len() ==> #[trigger] pipeline@.work[k] == v.seq.claimed,
        decreases consumers@.len() - i,
    {
        let spec_i = consumers[i];
        let stage = spec_i.stage_index;
        let deps = upstream_indices(consumers, i);
        let ghost before = pipeline@;
        proof {
            assert(consumers@.take(i as int).len() == i);
            lemma_upstream_below(consumers@.take(i as int), stage);
            lemma_dep_min(before.seq.gating, deps@, before.seq.claimed);
        }
        let placement = match modes[stage] {
            StageMode::WorkPool => {
                let k = match pool_of[stage] {
                    Some(k) => k,
                    None => {
                        let k = pipeline.add_worker_pool();
                        pool_of.set(stage, Some(k));
                        k
                    },
                };
                let c = pipeline.add_pool_worker(deps, k);
                Placement { consumer: c, mode: RunMode::WorkPool(k) }
            },
            StageMode::Sequential => {
                let c = pipeline.add_consumer(deps);
                Placement { consumer: c, mode: RunMode::Sequential }
            },
        };
        placements.push(placement);
        proof {
            let w = pipeline@;
            pipeline.lemma_view_wf();
            assert forall|k: int| 0 <= k < w.work.len() implies #[trigger] w.work[k] == v.seq.claimed by {
                if k < before.work.len() {
                    assert(w.work[k] == before.work[k]);
                }
            }
            assert(w.deps[i as int] == upstream_of(consumers@.take(i as int), stage));
            assert forall|j: int| 0 <= j < i + 1 implies #[trigger] pipeline@.seq.gating[j] == Some(
                v.seq.claimed as i64,
            ) by {
                if j < i {
                    assert(w.seq.gating[j] == before.seq.gating[j]);
                }
            }
        }
        i = i + 1;
    }
    placements
}

/// A copy of `specs`.
fn copy_specs(specs: &Vec<ConsumerSpec>) -> (r: Vec<ConsumerSpec>)
    ensures
        r@ == specs@,
{
    let mut r: Vec<ConsumerSpec> = Vec::new();
    let mut i: usize = 0;
    while i < specs.len()
        invariant
            i <= specs@.len(),
            r@ == specs@.take(i as int),
        decreases specs@.len() - i,
    {
        r.push(specs[i]);
        i = i + 1;
        proof {
            assert(r@ =~= specs@.take(i as int));
        }
    }
    proof {
        assert(specs@.take(i as int) =~= specs@);
    }
    r
}

/// The consumers planned so far, stage by stage, for the builders.
pub struct TopologyPlan {
    consumers: Vec<ConsumerSpec>,
    current_stage: usize,
}

impl TopologyPlan {
    #[verifier::type_invariant]
    spec fn inv(self) -> bool {
        &&& plan_ordered(self.consumers@)
        &&& self.current_stage < usize::MAX
        &&& forall|i: int|
            0 <= i < self.consumers@.len() ==> #[trigger] self.consumers@[i].stage_index
                <= self.current_stage
        &&& self.current_stage > 0 ==> exists|j: int|
            0 <= j < self.consumers@.len() && #[trigger] self.consumers@[j].stage_index + 1
                == self.current_stage
    }

    /// The planned consumers, in the order they were added.
    pub closed spec fn planned(self) -> Seq<ConsumerSpec> {
        self.consumers@
    }

    /// The stage new consumers join.
    pub closed spec fn stage(self) -> usize {
        self.current_stage
    }

    /// An empty plan whose first consumers join stage 0.
    pub fn new() -> (p: Self)
        ensures
            p.planned() == Seq::<ConsumerSpec>::empty(),
            p.stage() == 0,
    {
        TopologyPlan { consumers: Vec::new(), current_stage: 0 }
    }

    /// The planned consumers, in the order they were added.
    pub fn consumers(&self) -> (c: &Vec<ConsumerSpec>)
        ensures
            c@ == self.planned(),
            plan_ordered(c@),
            forall|i: int| 0 <= i < c@.len() ==> #[trigger] c@[i].stage_index < usize::MAX,
    {
        proof {
            use_type_invariant(self);
        }
        &self.consumers
    }

    /// The stage new consumers join.
    pub fn current_stage(&self) -> (s: usize)
        ensures
            s == self.stage(),
    {
        self.current_stage
    }

    /// Whether a consumer with `access` may join the current stage: no
    /// consumer of it accesses events the other way.
    pub fn access_compatible(&self, access: ConsumerAccess) -> (r: bool)
        ensures
            r == forall|i: int|
                0 <= i < self.planned().len() && #[trigger] self.planned()[i].stage_index == self.stage()
                    ==> self.planned()[i].access == access,
    {
        let mut i: usize = 0;
        while i < self.consumers.len()
            invariant
                i <= self.consumers@.len(),
                forall|j: int|
                    0 <= j < i && #[trigger] self.consumers@[j].stage_index == self.current_stage
                        ==> self.consumers@[j].access == access,
            decreases self.consumers@.len() - i,
        {
            let c = self.consumers[i];
            if c.stage_index == self.current_stage && c.access != access {
                return false;
            }
            i = i + 1;
        }
        true
    }

    /// Adds a consumer with `access` to the current stage, unless that mixes
    /// access kinds on the stage; reports whether it was added.
    pub fn add(&mut self, access: ConsumerAccess) -> (r: bool)
        ensures
            final(self).stage() == old(self).stage(),
            r == forall|i: int|
                0 <= i < old(self).planned().len() && #[trigger] old(self).planned()[i].stage_index
                    == old(self).stage() ==> old(self).planned()[i].access == access,
            r ==> final(self).planned() == old(self).planned().push(
                ConsumerSpec { stage_index: old(self).stage(), access },
            ),
            !r ==> final(self).planned() == old(self).planned(),
    {
        proof {
            use_type_invariant(&*self);
        }
        if !self.access_compatible(access) {
            return false;
        }
        let spec = ConsumerSpec { stage_index: self.current_stage, access };
        let ghost old_specs = self.consumers@;
        let ghost n = old_specs.push(spec);
        proof {
            assert forall|i: int| 0 <= i < n.len() && #[trigger] n[i].stage_index > 0 implies exists|j: int|
                0 <= j < i && #[trigger] n[j].stage_index + 1 == n[i].stage_index by {
                if i < old_specs.len() {
                    assert(n[i] == old_specs[i]);
                    let j = choose|j: int| 0 <= j < i && #[trigger] old_specs[j].stage_index + 1 == old_specs[i].stage_index;
                    assert(n[j] == old_specs[j]);
                } else {
                    let j = choose|j: int| 0 <= j < old_specs.len() && #[trigger] old_specs[j].stage_index + 1 == self.current_stage;
                    assert(n[j] == old_specs[j]);
                }
            }
            assert forall|i: int, j: int|
                0 <= i < n.len() && 0 <= j < n.len() && #[trigger] n[i].stage_index
                    == #[trigger] n[j].stage_index implies n[i].access == n[j].access by {
                if i < old_specs.len() {
                    assert(n[i] == old_specs[i]);
                }
                if j < old_specs.len() {
                    assert(n[j] == old_specs[j]);
                }
            }
            if self.current_stage > 0 {
                let j = choose|j: int| 0 <= j < old_specs.len() && #[trigger] old_specs[j].stage_index + 1 == self.current_stage;
                assert(n[j] == old_specs[j]);
            }
        }
        let mut consumers = copy_specs(&self.consumers);
        consumers.push(spec);
        self.consumers = consumers;
        true
    }

    /// Starts the next stage, whose consumers wait for those of the current
    /// one; refused (changing nothing) while the current stage is empty.
    pub fn advance_stage(&mut self) -> (r: bool)
        ensures
            final(self).planned() == old(self).planned(),
            r == ((exists|i: int|
                0 <= i < old(self).planned().len() && #[trigger] old(self).planned()[i].stage_index
                    == old(self).stage()) && old(self).stage() + 1 < usize::MAX),
            r ==> final(self).stage() == old(self).stage() + 1,
            !r ==> final(self).stage() == old(self).stage(),
    {
        proof {
            use_type_invariant(&*self);
        }
        if self.current_stage + 1 >= usize::MAX {
            return false;
        }
        let mut i: usize = 0;
        let mut found = false;
        while i < self.consumers.len()
            invariant
                i <= self.consumers@.len(),
                found == exists|j: int| 0 <= j < i && #[trigger] self.consumers@[j].stage_index == self.current_stage,
            decreases self.consumers@.len() - i,
        {
            if self.consumers[i].stage_index == self.current_stage {
                found = true;
            }
            i = i + 1;
        }
        if !found {
            return false;
        }
        proof {
            let j = choose|j: int| 0 <= j < self.consumers@.len() && #[trigger] self.consumers@[j].stage_index == self.current_stage;
            assert(self.consumers@[j].stage_index + 1 == self.current_stage + 1);
        }
        self.current_stage = self.current_stage + 1;
        true
    }
}

/// A ring of `size` slots filled by `event_factory` and padded as
/// `slot_padding` says, its sequencer (multi-producer when
/// `is_multi_producer`), and the planned `consumers` registered with them.
///
/// Refused with `InvalidBufferSize` unless the size is a power of two.
pub fn create_pipeline<E, F: EventFactory<E>, W: WaitStrategy>(
    size: usize,
    event_factory: F,
    wait_strategy: W,
    consumers: &Vec<ConsumerSpec>,
    is_multi_producer: bool,
    slot_padding: SlotPadding,
) -> (r: DisruptorResult<(Pipeline<E, W>, Vec<Placement>)>)
    requires
        forall|i: int| 0 <= i < consumers@.len() ==> #[trigger] consumers@[i].stage_index < usize::MAX,
    ensures
        r is Ok <==> valid_ring_size(size as nat),
        r is Err ==> r == Err::<(Pipeline<E, W>, Vec<Placement>), DisruptorError>(
            DisruptorError::InvalidBufferSize(size),
        ),
        r matches Ok((p, placements)) ==> {
            &&& p.wf()
            &&& p.setup() == (slot_padding, wait_strategy)
            &&& p@.settled()
            &&& p@.seq == (SequencerView {
                gating: p@.seq.gating,
                ..initial_sequencer(
                    if is_multi_producer {
                        ProducerType::Multi
                    } else {
                        ProducerType::Single
                    },
                    size as nat,
                )
            })
            &&& assembled(consumers@, -1, p@, placements@)
        },
{
    let ring = match RingBuffer::new_with_padding(size, event_factory, slot_padding) {
        Ok(ring) => ring,
        Err(e) => {
            return Err(e);
        },
    };
    let sequencer = if is_multi_producer {
        SequencerEnum::Multi(MultiProducerSequencer::new(size, wait_strategy))
    } else {
        SequencerEnum::Single(SingleProducerSequencer::new(size, wait_strategy))
    };
    let mut pipeline = Pipeline::new(ring, sequencer);
    let placements = assemble(&mut pipeline, consumers);
    Ok((pipeline, placements))
}

/// Builder state: no consumer added yet.
pub struct NoConsumers;

/// Builder state: at least one consumer added.
pub struct HasConsumers;

/// Builder state: a single consumer on the stage.
pub struct SingleConsumer;

/// Builder state: several consumers on the stage.
pub struct MultipleConsumers;

/// Handle mode: one producer publishes.
pub struct SingleProducerMode;

/// Handle mode: any number of producer handles publish.
pub struct MultiProducerMode;

} // verus!
