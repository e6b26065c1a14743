//! Properties of the library that span its operations.

use vstd::prelude::*;
use crate::failure::FailureRecordView;
use crate::consumer_engine::ConsumerStep;
use crate::pipeline::{pool_step, step_claim, PipelineView};
use crate::producer_type::{ascii_lower, equals_ignoring_case, parsed_producer_type, producer_type_text, ProducerType};
use crate::producer::{is_terminal_error, is_transient_error, MissingFreeSlots, RingBufferFull, TryPublishError};
use crate::ring_buffer::slot_of;
use crate::topology::{lemma_access_of_member, lemma_upstream_contains, lemma_width_counts, stage_mode, upstream_of, ConsumerAccess, ConsumerSpec, StageMode};
use crate::sequencer::{
    kept_failure, lemma_distinct_slots, lemma_min_gating_bound, lemma_min_gating_floor,
    lemma_min_gating_raise_default,
};
use crate::shared::{frozen_view, producer_panic_view};

verus! {

/// A claim that succeeds never reaches a slot whose event the slowest
/// consumer has not released: the state after it still satisfies the
/// pipeline invariant, which bounds the claimed sequences by the gating
/// minimum plus the ring size.
pub proof fn law_claim_keeps_invariant<E>(v: PipelineView<E>, n: int)
    requires
        v.wf(),
        1 <= n,
        v.seq.claim_succeeds(n),
    ensures
        (PipelineView { seq: v.seq.after_claim(n), ..v }).wf(),
        v.seq.after_claim(n).claimed - v.seq.after_claim(n).gate() <= v.seq.buffer_size,
{
    lemma_min_gating_raise_default(v.seq.gating, v.seq.claimed, v.seq.claimed + n);
}

/// A claim never reaches the slot of an event that some consumer has not
/// released yet: every sequence a successful claim of `n` hands out maps to
/// another slot than each claimed sequence after the gating minimum.
pub proof fn law_claims_spare_unreleased_events<E>(v: PipelineView<E>, n: int, s: int, t: int)
    requires
        v.wf(),
        1 <= n,
        v.seq.claim_succeeds(n),
        v.seq.gate() < s <= v.seq.claimed,
        v.seq.claimed < t <= v.seq.claimed + n,
    ensures
        slot_of(t, v.seq.buffer_size) != slot_of(s, v.seq.buffer_size),
{
    lemma_min_gating_bound(v.seq.gating, v.seq.claimed);
    lemma_min_gating_floor(v.seq.gating, v.seq.claimed, -1);
    lemma_distinct_slots(t, s, v.seq.buffer_size as int);
}

/// A read gives back what the last write of its sequence left: writing
/// event `x` for a sequence `s` a claim handed out makes the event read for
/// `s` be `x`, and leaves the event of every other sequence a consumer has
/// not released yet as it was.
pub proof fn law_read_after_write<E>(v: PipelineView<E>, n: int, s: int, t: int, x: E)
    requires
        v.wf(),
        1 <= n,
        v.seq.claim_succeeds(n),
        v.seq.claimed < s <= v.seq.claimed + n,
        v.seq.gate() < t <= v.seq.claimed + n,
        t != s,
    ensures
        ({
            let w = PipelineView {
                seq: v.seq.after_claim(n),
                ring: v.ring.update(slot_of(s, v.seq.buffer_size), x),
                ..v
            };
            &&& w.event_at(s) == x
            &&& w.event_at(t) == v.event_at(t)
        }),
{
    lemma_min_gating_bound(v.seq.gating, v.seq.claimed);
    lemma_min_gating_floor(v.seq.gating, v.seq.claimed, -1);
    let size = v.seq.buffer_size as int;
    vstd::arithmetic::div_mod::lemma_mod_pos_bound(s, size);
    lemma_distinct_slots(t, s, size);
}

/// A poisoned or closed pipeline refuses every claim, and every refusal it
/// reports is terminal.
pub proof fn law_terminal_refuses<E>(v: PipelineView<E>, n: int, transient: TryPublishError)
    requires
        v.seq.poisoned || v.seq.closed,
    ensures
        !v.seq.claim_succeeds(n),
        is_terminal_error(v.rejection(transient)),
{
}

/// A full ring refuses: when the slowest consumer is a whole ring behind
/// the claimed sequence of an open, unpoisoned pipeline, a publish of one
/// event is refused as `Full`, a batch of `n` events as missing `n` free
/// slots, and both refusals are transient.
pub proof fn law_full_ring_refuses<E>(
    v: PipelineView<E>,
    n: usize,
    one: Result<i64, TryPublishError>,
    batch: Result<i64, TryPublishError>,
)
    requires
        v.wf(),
        !v.seq.poisoned,
        !v.seq.closed,
        v.seq.remaining() == 0,
        1 <= n <= v.seq.buffer_size,
        v.try_publish_outcome(one),
        v.try_batch_outcome(n, batch),
    ensures
        one == Err::<i64, TryPublishError>(TryPublishError::Full(RingBufferFull)),
        batch == Err::<i64, TryPublishError>(TryPublishError::MissingFreeSlots(MissingFreeSlots(n as u64))),
        is_transient_error(one->Err_0),
        is_transient_error(batch->Err_0),
{
}

/// A rejection is never both terminal and transient.
pub proof fn law_terminal_not_transient(e: TryPublishError)
    ensures
        !(is_terminal_error(e) && is_transient_error(e)),
{
}

/// The first failure recorded is kept: recording more never replaces it.
pub proof fn law_first_failure_kept(
    first: Option<FailureRecordView>,
    f1: FailureRecordView,
    f2: FailureRecordView,
)
    ensures
        kept_failure(kept_failure(first, f1), f2) == kept_failure(first, f1),
        first is Some ==> kept_failure(first, f1) == first,
        first is None ==> kept_failure(first, f1) == Some(f1),
{
}

/// A producer whose update panics between claiming `lo..=hi` and publishing
/// leaves the shared pipeline poisoned, with the producer-panic failure as
/// its first failure unless one was recorded before.
pub proof fn law_producer_panic_poisons<E>(v: PipelineView<E>, lo: int, hi: int)
    ensures
        frozen_view(v, Some(producer_panic_view(lo, hi))).seq.poisoned,
        v.seq.first_failure is None ==> frozen_view(v, Some(producer_panic_view(lo, hi))).seq.first_failure
            == Some(producer_panic_view(lo, hi)),
        v.seq.first_failure is Some ==> frozen_view(v, Some(producer_panic_view(lo, hi))).seq.first_failure
            == v.seq.first_failure,
        frozen_view(v, Some(producer_panic_view(lo, hi))).seq.claimed == v.seq.claimed,
{
}

/// The first stage never passes the published cursor, and a dependent
/// consumer never passes a consumer it waits for.
pub proof fn law_consumers_ordered<E>(v: PipelineView<E>, c: int, k: int)
    requires
        v.wf(),
        v.active(c),
    ensures
        v.seq.gating[c]->Some_0 <= v.seq.published_cursor(),
        0 <= k < v.deps[c].len() && v.active(v.deps[c][k] as int) ==> v.seq.gating[c]->Some_0
            <= v.seq.gating[v.deps[c][k] as int]->Some_0,
{
}

/// Stages stay in order: in a pipeline whose consumers were registered from
/// a plan (each waiting for the consumers of the stage before its own that
/// were planned before it), a consumer never passes a consumer of the stage
/// before its own, and none passes the published cursor.
pub proof fn law_stages_ordered<E>(v: PipelineView<E>, consumers: Seq<ConsumerSpec>, i: int, j: int)
    requires
        v.wf(),
        consumers.len() == v.seq.gating.len(),
        consumers.len() <= usize::MAX,
        forall|x: int|
            0 <= x < consumers.len() ==> #[trigger] v.deps[x] == upstream_of(
                consumers.take(x),
                consumers[x].stage_index,
            ),
        0 <= j < i < consumers.len(),
        v.active(i),
        v.active(j),
        consumers[j].stage_index + 1 == consumers[i].stage_index,
    ensures
        v.seq.gating[i]->Some_0 <= v.seq.gating[j]->Some_0,
        v.seq.gating[i]->Some_0 <= v.seq.published_cursor(),
{
    let prefix = consumers.take(i);
    assert(prefix[j] == consumers[j]);
    lemma_upstream_contains(prefix, consumers[i].stage_index, j);
    let k = choose|k: int|
        0 <= k < upstream_of(prefix, consumers[i].stage_index).len() && #[trigger] upstream_of(
            prefix,
            consumers[i].stage_index,
        )[k] == j;
    assert(v.deps[i][k] == j);
    law_consumers_ordered(v, i, k);
}

/// A stage runs as a worker pool (each event handled by one of its
/// consumers) when it has two or more consumers and they are mutable, and
/// sequentially when it has fewer or they are read-only, whatever its index.
pub proof fn law_stage_modes(specs: Seq<ConsumerSpec>, s: int)
    ensures
        (exists|i: int, j: int|
            0 <= i < j < specs.len() && #[trigger] specs[i].stage_index == s && #[trigger] specs[j].stage_index
                == s) && (forall|k: int|
            0 <= k < specs.len() && #[trigger] specs[k].stage_index == s ==> specs[k].access
                == ConsumerAccess::Mutable) ==> stage_mode(specs, s) == StageMode::WorkPool,
        stage_mode(specs, s) == StageMode::WorkPool ==> exists|i: int, j: int|
            0 <= i < j < specs.len() && #[trigger] specs[i].stage_index == s && #[trigger] specs[j].stage_index
                == s,
        (forall|k: int|
            0 <= k < specs.len() && #[trigger] specs[k].stage_index == s ==> specs[k].access
                == ConsumerAccess::Readonly) ==> stage_mode(specs, s) == StageMode::Sequential,
{
    lemma_width_counts(specs, s);
    lemma_access_of_member(specs, s);
}

/// Workers of one pool never share a sequence: a worker claims the pool's
/// work sequence plus one (a published sequence) and moves the work sequence
/// there, so the next claim from that pool, by any of its workers, is a
/// higher sequence.
pub proof fn law_work_claims_unique<E>(v: PipelineView<E>, c: int, d: int)
    requires
        v.wf(),
        v.active(c),
        v.pools[c] is Some,
        0 <= d < v.pools.len(),
        v.pools[d] == v.pools[c],
        v.work[v.pools[c]->Some_0 as int] < v.seq.published_cursor(),
    ensures
        ({
            let pool = v.pools[c]->Some_0 as int;
            let claim = v.work[pool] + 1;
            let after = PipelineView { work: v.work.update(pool, claim as i64), ..v };
            &&& v.work_outcome(c, ConsumerStep::Processed { from: claim as i64, to: claim as i64 })
            &&& after.work[after.pools[d]->Some_0 as int] + 1 > claim
        }),
{
    let pool = v.pools[c]->Some_0 as int;
    assert(pool < v.work.len());
}

proof fn lemma_pool_work_grows(works: Seq<i64>, steps: Seq<ConsumerStep>, a: int, b: int)
    requires
        works.len() == steps.len() + 1,
        forall|k: int| 0 <= k < steps.len() ==> pool_step(works[k], #[trigger] steps[k], works[k + 1]),
        0 <= a <= b < works.len(),
    ensures
        works[a] <= works[b],
    decreases b - a,
{
    if a < b {
        lemma_pool_work_grows(works, steps, a, b - 1);
        assert(pool_step(works[b - 1], steps[b - 1], works[b]));
    }
}

proof fn lemma_pool_claims_cover(works: Seq<i64>, steps: Seq<ConsumerStep>, s: int)
    requires
        works.len() == steps.len() + 1,
        forall|k: int| 0 <= k < steps.len() ==> pool_step(works[k], #[trigger] steps[k], works[k + 1]),
        works[0] < s <= works.last(),
    ensures
        exists|k: int| 0 <= k < steps.len() && #[trigger] step_claim(steps[k]) == Some(s as i64),
    decreases steps.len(),
{
    let m = steps.len() - 1;
    assert(pool_step(works[m], steps[m], works[m + 1]));
    if s <= works[m] {
        let w2 = works.drop_last();
        let s2 = steps.drop_last();
        assert forall|k: int| 0 <= k < s2.len() implies pool_step(w2[k], #[trigger] s2[k], w2[k + 1]) by {
            assert(pool_step(works[k], steps[k], works[k + 1]));
        }
        lemma_pool_claims_cover(w2, s2, s);
        let k = choose|k: int| 0 <= k < s2.len() && #[trigger] step_claim(s2[k]) == Some(s as i64);
        assert(step_claim(steps[k]) == Some(s as i64));
    } else {
        assert(step_claim(steps[m]) == Some(s as i64));
    }
}

/// A pool hands out each sequence once, in order: over any run of steps of
/// its workers (other operations leave a pool's work sequence alone), every
/// sequence after the work sequence it started from, up to where the run
/// left it, is claimed by exactly one step, and a later step claims a higher
/// sequence.
pub proof fn law_pool_claims_once(works: Seq<i64>, steps: Seq<ConsumerStep>, s: int)
    requires
        works.len() == steps.len() + 1,
        forall|k: int| 0 <= k < steps.len() ==> pool_step(works[k], #[trigger] steps[k], works[k + 1]),
    ensures
        works[0] < s <= works.last() ==> exists|k: int|
            0 <= k < steps.len() && #[trigger] step_claim(steps[k]) == Some(s as i64),
        forall|k1: int, k2: int|
            0 <= k1 < k2 < steps.len() && #[trigger] step_claim(steps[k1]) is Some && #[trigger] step_claim(
                steps[k2],
            ) is Some ==> step_claim(steps[k1])->Some_0 < step_claim(steps[k2])->Some_0,
{
    if works[0] < s <= works.last() {
        lemma_pool_claims_cover(works, steps, s);
    }
    assert forall|k1: int, k2: int|
        0 <= k1 < k2 < steps.len() && #[trigger] step_claim(steps[k1]) is Some && #[trigger] step_claim(
            steps[k2],
        ) is Some implies step_claim(steps[k1])->Some_0 < step_claim(steps[k2])->Some_0 by {
        assert(pool_step(works[k1], steps[k1], works[k1 + 1]));
        assert(pool_step(works[k2], steps[k2], works[k2 + 1]));
        lemma_pool_work_grows(works, steps, k1 + 1, k2);
    }
}

/// Parsing the display form of a producer type gives it back.
pub proof fn law_producer_type_round_trip(t: ProducerType)
    ensures
        parsed_producer_type(producer_type_text(t)) == Some(t),
{
    reveal_strlit("Single");
    reveal_strlit("single");
    reveal_strlit("Multi");
    reveal_strlit("multi");
    assert(ascii_lower('S') == 's');
    assert(ascii_lower('M') == 'm');
    if t == ProducerType::Single {
        assert(equals_ignoring_case("Single"@, "single"@));
    } else {
        assert(!equals_ignoring_case("Multi"@, "single"@));
        assert(equals_ignoring_case("Multi"@, "multi"@));
    }
}

} // verus!
