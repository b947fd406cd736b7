use moe_infer::engine::fused::{plan_forward, EngineStep};
use moe_infer::error::{IoErrorKind, MoEError};
use moe_infer::expert_cache::ExpertLRUCache;
use moe_infer::expert_io::{
    batch_expert_read, batch_expert_read_buffers, check_reads, direct_expert_read, read_expert,
};
use moe_infer::full_forward::{
    build_io_plan, check_load, io_team, layer_experts, run_full_forward, set_of, total_io_bytes,
    BufferSet, FullStep,
};
use moe_infer::io_pool::{
    worker_tasks, IOPool, IOPreadTask, ReadOutcome, ReadRequest, WorkerAction, NUM_IO_THREADS,
};
use moe_infer::schedule::{
    full_index, grouped_token_plan, linear_group_plan, linear_index, plan_layer, token_plan,
    GroupStep, LayerStep, TokenStep,
};
use moe_infer::token_run::{TokenAction, TokenEvent, TokenRun};

#[test]
fn layers_have_places_of_their_kind() {
    let linear: Vec<usize> = [0, 1, 2, 4, 5, 6, 8].iter().map(|l| linear_index(*l)).collect();
    assert_eq!(linear, vec![0, 1, 2, 3, 4, 5, 6]);
    let full: Vec<usize> = [3, 7, 11].iter().map(|l| full_index(*l)).collect();
    assert_eq!(full, vec![0, 1, 2]);
}

#[test]
fn tokens_run_their_layers_in_order() {
    let p = token_plan(5);
    assert_eq!(
        p,
        vec![
            TokenStep::CheckSignal,
            TokenStep::Layer { layer: 0, full: false },
            TokenStep::Layer { layer: 1, full: false },
            TokenStep::Layer { layer: 2, full: false },
            TokenStep::Layer { layer: 3, full: true },
            TokenStep::CheckSignal,
            TokenStep::Layer { layer: 4, full: false },
            TokenStep::CompletePending,
            TokenStep::Finish,
        ]
    );
    assert_eq!(token_plan(0), vec![TokenStep::CompletePending, TokenStep::Finish]);
}

#[test]
fn linear_layers_run_in_groups() {
    let p = grouped_token_plan(5);
    let groups: Vec<&TokenStep> =
        p.iter().filter(|s| matches!(s, TokenStep::LinearGroup { .. } | TokenStep::Layer { .. })).collect();
    assert_eq!(
        groups,
        vec![
            &TokenStep::LinearGroup { first: 0, count: 3 },
            &TokenStep::Layer { layer: 3, full: true },
            &TokenStep::LinearGroup { first: 4, count: 1 },
        ]
    );
    assert_eq!(p.last(), Some(&TokenStep::Finish));
}

#[test]
fn a_group_alternates_between_layers() {
    let p = linear_group_plan(0, 2, 4);
    assert_eq!(p.first(), Some(&GroupStep::Upload { layer: 0 }));
    assert_eq!(p.last(), Some(&GroupStep::Download));
    assert!(p.contains(&GroupStep::PostPre { done: 0, layer: 1, place: 1 }));
    assert!(p.contains(&GroupStep::Route { layer: 1 }));
}

#[test]
fn pending_experts_are_collected_before_the_next() {
    assert_eq!(
        plan_layer(3, true, true, true, true, false),
        vec![LayerStep::CompleteFast, LayerStep::FullAttention, LayerStep::Moe]
    );
    assert_eq!(
        plan_layer(0, true, false, true, false, false),
        vec![LayerStep::Complete, LayerStep::LinearAttention { place: 0 }, LayerStep::Moe]
    );
    assert_eq!(
        plan_layer(4, true, true, true, true, false),
        vec![
            LayerStep::LinearAttention { place: 3 },
            LayerStep::CompleteFast,
            LayerStep::SetResidual,
            LayerStep::SaveHidden,
            LayerStep::RestoreHidden,
            LayerStep::Moe,
        ]
    );
}

#[test]
fn a_token_steps_through_its_layers() {
    let mut t = TokenRun::new(2);
    assert_eq!(t.next_action(), TokenAction::CheckSignal);
    assert_eq!(t.process_token_inner(TokenEvent::Signal { stop: false }), TokenAction::RunLayer { layer: 0 });
    assert_eq!(
        t.process_token_inner(TokenEvent::LayerDone { pending: Some(true) }),
        TokenAction::RunLayer { layer: 1 }
    );
    assert_eq!(t.layer_plan(true, true, true)[0], LayerStep::Complete);
    assert_eq!(t.process_token_inner(TokenEvent::LayerDone { pending: Some(false) }), TokenAction::Collect);
    assert_eq!(t.process_token_inner(TokenEvent::Collected), TokenAction::Finished);

    let mut t = TokenRun::new(2);
    assert_eq!(t.process_token_inner(TokenEvent::Signal { stop: true }), TokenAction::Interrupted);
    assert_eq!(TokenRun::new(0).next_action(), TokenAction::Finished);
}

#[test]
fn forward_passes_embed_first() {
    assert!(plan_forward(0, 4, false, true).is_empty());
    let p = plan_forward(2, 1, false, true);
    assert_eq!(
        &p[..4],
        &[
            EngineStep::Upload,
            EngineStep::Embed { token: 0 },
            EngineStep::Embed { token: 1 },
            EngineStep::Begin { token: 0 },
        ]
    );
    assert_eq!(p.last(), Some(&EngineStep::Download));
    let q = plan_forward(1, 1, true, false);
    assert_eq!(q[0], EngineStep::Embed { token: 0 });
    assert_eq!(q.last(), Some(&EngineStep::Token(TokenStep::Finish)));
}

#[test]
fn layers_alternate_between_two_buffer_sets() {
    assert_eq!(set_of(0), BufferSet::A);
    assert_eq!(set_of(1), BufferSet::B);
    let p = run_full_forward(2);
    assert_eq!(
        p,
        vec![
            FullStep::Load { layer: 0, set: BufferSet::A },
            FullStep::Prefetch { layer: 1, set: BufferSet::B },
            FullStep::Compute { layer: 0, set: BufferSet::A },
            FullStep::Accumulate { layer: 0 },
            FullStep::Join { layer: 1 },
            FullStep::Compute { layer: 1, set: BufferSet::B },
            FullStep::Accumulate { layer: 1 },
        ]
    );
}

#[test]
fn synthetic_routing_is_reproducible() {
    assert_eq!(layer_experts(0, 3, 256), vec![13, 44, 75]);
    assert_eq!(layer_experts(2, 2, 16), vec![27 % 16, 58 % 16]);
    let plan = build_io_plan(&[2, 0], &[7u32, 8], 100);
    assert_eq!((plan[0].dst, plan[0].size, plan[0].offset), (7, 100, 200));
    assert_eq!((plan[1].dst, plan[1].size, plan[1].offset), (8, 100, 0));
    assert_eq!(io_team(2), 2);
    assert_eq!(io_team(9), NUM_IO_THREADS);
    assert_eq!(total_io_bytes(40, 8, 10), 3200);
}

#[test]
fn short_loads_are_errors() {
    assert!(check_load(&[4, 5], &[10, 10], 10).is_ok());
    let e = check_load(&[4, 5], &[10, -1], 10).unwrap_err();
    assert!(matches!(&e, MoEError::Io(i) if i.kind == IoErrorKind::UnexpectedEof));
    assert_eq!(e.message(), "I/O error: layer 0 expert 5: got -1");
}

#[test]
fn tasks_are_dealt_out() {
    let mut all: Vec<usize> = Vec::new();
    for w in 0..4 {
        all.extend(worker_tasks(w, 4, 10));
    }
    assert_eq!(worker_tasks(1, 4, 10), vec![1, 5, 9]);
    all.sort();
    assert_eq!(all, (0..10).collect::<Vec<usize>>());
    assert!(worker_tasks(3, 4, 2).is_empty());
}

#[test]
fn a_batch_waits_for_all_workers() {
    let mut p = IOPool::new();
    assert_eq!(p.poll(0), WorkerAction::Wait);
    assert!(!p.dispatch(0));
    assert!(p.dispatch(10));
    for w in 0..NUM_IO_THREADS {
        assert!(!p.finished());
        assert_eq!(p.poll(0), WorkerAction::Work { generation: 1, num_tasks: 10 });
        assert_eq!(p.complete(), w + 1 == NUM_IO_THREADS);
    }
    assert!(p.finished());
    assert_eq!(p.poll(1), WorkerAction::Wait);
    p.shutdown();
    assert_eq!(p.poll(1), WorkerAction::Exit);
}

fn task(comp: Option<u32>, comp_size: u32) -> IOPreadTask<u32> {
    IOPreadTask {
        fd: 3,
        dst: 1,
        offset: 64,
        size: 100,
        result: 0,
        lz4_comp_buf: comp,
        lz4_comp_size: comp_size,
    }
}

#[test]
fn compressed_tasks_read_the_compressed_bytes() {
    let plain = task(None, 0);
    assert_eq!(plain.request(), ReadRequest { fd: 3, into: 1, size: 100, offset: 64 });
    assert_eq!(plain.after_read(70), ReadOutcome::Done(70));
    let packed = task(Some(2), 40);
    assert_eq!(packed.request(), ReadRequest { fd: 3, into: 2, size: 40, offset: 64 });
    assert_eq!(packed.after_read(40), ReadOutcome::Decompress);
    assert_eq!(packed.after_read(39), ReadOutcome::Done(-1));
}

#[test]
fn experts_lie_one_behind_the_other() {
    assert_eq!(read_expert(3, 1000), 3000);
    let tasks = direct_expert_read(9, &[2, 1, 0], 2, 10, &[50u32, 51]);
    assert_eq!(tasks.len(), 2);
    assert_eq!((tasks[0].fd, tasks[0].dst, tasks[0].offset, tasks[0].size), (9, 50, 20, 10));
    assert_eq!(tasks[1].offset, 10);
}

#[test]
fn batches_read_what_the_cache_lacks() {
    let mut c: ExpertLRUCache<u32> = ExpertLRUCache::new(1, 8, vec![10, 20, 30]);
    c.insert(0, 5, 8);
    let batch = batch_expert_read(&mut c, 7, &[5, 6], 100, 0, 8);
    assert_eq!(batch.misses, vec![1]);
    assert_eq!(batch.bufs[0], Some(10));
    assert_eq!(batch.tasks.len(), 1);
    assert_eq!((batch.tasks[0].fd, batch.tasks[0].offset), (7, 600));
    let good = check_reads(&[99], 100, true);
    assert_eq!(good, vec![false]);
    assert_eq!(batch.finish(&good), vec![Some(10), None]);
    let good = check_reads(&[100], 100, true);
    assert_eq!(batch.finish(&good), vec![Some(10), Some(20)]);
    assert_eq!(check_reads(&[-1], 100, false), vec![true]);
}

#[test]
fn buffers_of_a_batch_stay_pinned() {
    let mut c: ExpertLRUCache<u32> = ExpertLRUCache::new(1, 8, vec![10, 20, 30]);
    let (batch, pinned) = batch_expert_read_buffers(&mut c, 7, &[1, 2], 100, 0, 8);
    assert_eq!(batch.misses, vec![0, 1]);
    assert_eq!(pinned.len(), 2);
    // Another expert must not take a pinned entry.
    assert_eq!(*c.insert(0, 3, 8), 30);
    assert_eq!(*c.insert(0, 4, 8), 30);
    c.unpin_batch(&pinned);
    assert_eq!(*c.insert(0, 5, 8), 10);
}
