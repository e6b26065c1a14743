use badbatch::topology::{assemble, stage_count, stage_run_modes};
use badbatch::{
    create_pipeline, BusySpinWaitStrategy, ConsumerAccess, ConsumerSpec, DefaultEventFactory,
    Pipeline, RingBuffer, RunMode, SequencerEnum, SingleProducerSequencer, SlotPadding, StageMode,
    ConsumerStep, TopologyPlan, WaitKind, WaitStrategy,
};

fn spec(stage_index: usize, access: ConsumerAccess) -> ConsumerSpec {
    ConsumerSpec { stage_index, access }
}

#[test]
fn stages_with_several_mutable_consumers_run_as_pools() {
    let specs = vec![
        spec(0, ConsumerAccess::Mutable),
        spec(0, ConsumerAccess::Mutable),
        spec(1, ConsumerAccess::Readonly),
        spec(1, ConsumerAccess::Readonly),
        spec(2, ConsumerAccess::Mutable),
    ];
    let count = stage_count(&specs);
    assert_eq!(count, 3);
    assert_eq!(
        stage_run_modes(&specs, count),
        vec![StageMode::WorkPool, StageMode::Sequential, StageMode::Sequential]
    );
    assert_eq!(stage_count(&Vec::new()), 0);
}

#[test]
fn assembled_consumers_wait_for_the_previous_stage() {
    let specs = vec![
        spec(0, ConsumerAccess::Mutable),
        spec(0, ConsumerAccess::Mutable),
        spec(1, ConsumerAccess::Mutable),
    ];
    let ring = RingBuffer::new(8, DefaultEventFactory::<i64>::new()).unwrap();
    let mut p: Pipeline<i64, BusySpinWaitStrategy> =
        Pipeline::new(ring, SequencerEnum::Single(SingleProducerSequencer::new(8, BusySpinWaitStrategy)));
    let placements = assemble(&mut p, &specs);
    assert_eq!(placements.len(), 3);
    assert_eq!(placements[0].mode, RunMode::WorkPool(0));
    assert_eq!(placements[1].mode, RunMode::WorkPool(0));
    assert_eq!(placements[2].mode, RunMode::Sequential);
    assert_eq!(p.consumer_sequence(2), Some(-1));
    for v in 0..2 {
        p.try_publish(|e: &mut i64| *e = v).unwrap();
    }
    assert_eq!(p.barrier_available(2), -1);
    p.commit_consumer(0, 1);
    assert_eq!(p.barrier_available(2), -1);
    p.commit_consumer(1, 0);
    assert_eq!(p.barrier_available(2), 0);
}

#[test]
fn create_pipeline_refuses_bad_sizes_and_registers_consumers() {
    let specs = vec![spec(0, ConsumerAccess::Readonly)];
    let bad = create_pipeline(12, DefaultEventFactory::<i64>::new(), BusySpinWaitStrategy, &specs, false, SlotPadding::Unpadded);
    assert!(bad.is_err());
    let (p, placements) =
        create_pipeline(16, DefaultEventFactory::<i64>::new(), BusySpinWaitStrategy, &specs, true, SlotPadding::CacheLine64)
            .unwrap();
    assert_eq!(p.buffer_size(), 16);
    assert_eq!(p.consumer_count(), 1);
    assert_eq!(placements[0].consumer, 0);
    assert_eq!(p.slot_padding(), SlotPadding::CacheLine64);
    assert_eq!(p.wait_strategy().wait_kind(), WaitKind::BusySpin);
}

#[test]
fn plan_refuses_mixed_access_on_one_stage() {
    let mut plan = TopologyPlan::new();
    assert!(!plan.advance_stage());
    assert!(plan.add(ConsumerAccess::Mutable));
    assert!(!plan.add(ConsumerAccess::Readonly));
    assert!(plan.add(ConsumerAccess::Mutable));
    assert!(plan.advance_stage());
    assert_eq!(plan.current_stage(), 1);
    assert!(plan.add(ConsumerAccess::Readonly));
    assert_eq!(plan.consumers().len(), 3);
    assert!(plan.access_compatible(ConsumerAccess::Readonly));
    assert!(!plan.access_compatible(ConsumerAccess::Mutable));
}

#[test]
fn a_later_stage_never_passes_the_stage_before_it() {
    let specs = vec![spec(0, ConsumerAccess::Readonly), spec(1, ConsumerAccess::Readonly)];
    let (mut p, placements) =
        create_pipeline(4, DefaultEventFactory::<i64>::new(), BusySpinWaitStrategy, &specs, false, SlotPadding::Unpadded)
            .unwrap();
    let first = placements[0].consumer;
    let second = placements[1].consumer;
    assert_eq!(p.try_publish(|e: &mut i64| *e = 7), Ok(0));
    assert_eq!(p.try_publish(|e: &mut i64| *e = 8), Ok(1));
    let observe = |_e: &i64, _s: i64, _b: bool| -> badbatch::DisruptorResult<()> { Ok(()) };
    let ctx = badbatch::consumer_engine::ConsumerContext::without_stage("t");
    assert_eq!(p.process_readonly_batch(second, &observe, ctx), ConsumerStep::Idle);
    assert_eq!(
        p.process_readonly_batch(first, &observe, ctx),
        ConsumerStep::Processed { from: 0, to: 1 }
    );
    assert_eq!(
        p.process_readonly_batch(second, &observe, ctx),
        ConsumerStep::Processed { from: 0, to: 1 }
    );
}
