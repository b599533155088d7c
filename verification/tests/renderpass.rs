use wgpurenderer::batch_order::compare_draw_calls;
use wgpurenderer::geometry::IndexFormat;
use wgpurenderer::handle::{Handle, ResourcePool};
use wgpurenderer::immediate::{ByteRange, ImmediateManager};
use wgpurenderer::renderpass::{
    execute_ordered_draw_calls, handles_live, BufferBinding, BufferRange, DrawCall, DrawGeometry,
    Executor, RenderCommand, RenderPass, RenderPlan, ShaderData,
};
use wgpurenderer::utils::InstanceId;
use std::cmp::Ordering;

type Pipelines = ResourcePool<&'static str>;
type BindGroups = ResourcePool<&'static str>;
type Call = DrawCall<&'static str, &'static str>;

fn call(pipeline: Handle<&'static str>, bind_groups: Vec<Handle<&'static str>>, count: u32) -> Call {
    DrawCall {
        render_pipeline_handle: pipeline,
        shader_data: ShaderData { bind_groups, immediates: None },
        geometry: DrawGeometry {
            buffers: vec![],
            index_buffer: None,
            index_format: IndexFormat::Uint32,
            count,
        },
        instance_count: 1,
    }
}

fn pipeline_binds(commands: &[RenderCommand]) -> Vec<u32> {
    let mut out = vec![];
    for c in commands {
        if let RenderCommand::SetPipeline { pipeline } = c {
            out.push(pipeline.0);
        }
    }
    out
}

fn bind_group_binds(commands: &[RenderCommand]) -> Vec<(u32, u32)> {
    let mut out = vec![];
    for c in commands {
        if let RenderCommand::SetBindGroup { slot, bind_group } = c {
            out.push((*slot, bind_group.0));
        }
    }
    out
}

fn draws(commands: &[RenderCommand]) -> Vec<RenderCommand> {
    let mut out = vec![];
    for c in commands {
        match c {
            RenderCommand::Draw { .. } | RenderCommand::DrawIndexed { .. } => out.push(*c),
            _ => {}
        }
    }
    out
}

#[test]
fn empty_draw_call_list_emits_nothing() {
    let pipelines = Pipelines::new();
    let groups = BindGroups::new();
    let immediates = ImmediateManager::new();
    let mut calls: Vec<Call> = vec![];
    let commands = execute_ordered_draw_calls(&mut calls, &pipelines, &groups, &immediates);
    assert!(commands.is_empty());
    assert!(calls.is_empty());
}

#[test]
fn pipelines_a_b_a_are_bound_twice() {
    let mut pipelines = Pipelines::new();
    let groups = BindGroups::new();
    let immediates = ImmediateManager::new();
    let a = pipelines.create("A");
    let b = pipelines.create("B");
    let a2 = pipelines.clone_handle(&a);
    let mut calls = vec![call(a, vec![], 1), call(b, vec![], 2), call(a2, vec![], 3)];
    let commands = execute_ordered_draw_calls(&mut calls, &pipelines, &groups, &immediates);
    assert_eq!(pipeline_binds(&commands), vec![0, 1]);
    assert_eq!(
        commands,
        vec![
            RenderCommand::SetPipeline { pipeline: InstanceId(0) },
            RenderCommand::Draw { count: 1, instances: 1 },
            RenderCommand::Draw { count: 3, instances: 1 },
            RenderCommand::SetPipeline { pipeline: InstanceId(1) },
            RenderCommand::Draw { count: 2, instances: 1 },
        ]
    );
}

#[test]
fn same_bind_group_at_slot_zero_is_bound_once() {
    let mut pipelines = Pipelines::new();
    let mut groups = BindGroups::new();
    let immediates = ImmediateManager::new();
    let p = pipelines.create("P");
    let pc = pipelines.clone_handle(&p);
    let g = groups.create("G");
    let g2 = groups.clone_handle(&g);
    let mut calls = vec![call(p, vec![g], 1), call(pc, vec![g2], 2)];
    let commands = execute_ordered_draw_calls(&mut calls, &pipelines, &groups, &immediates);
    assert_eq!(bind_group_binds(&commands), vec![(0, 0)]);
    assert_eq!(
        commands,
        vec![
            RenderCommand::SetPipeline { pipeline: InstanceId(0) },
            RenderCommand::SetBindGroup { slot: 0, bind_group: InstanceId(0) },
            RenderCommand::Draw { count: 1, instances: 1 },
            RenderCommand::Draw { count: 2, instances: 1 },
        ]
    );
}

#[test]
fn every_draw_call_is_drawn_once() {
    let mut pipelines = Pipelines::new();
    let mut groups = BindGroups::new();
    let immediates = ImmediateManager::new();
    let pa = pipelines.create("PA");
    let pb = pipelines.create("PB");
    let pb2 = pipelines.clone_handle(&pb);
    let pa2 = pipelines.clone_handle(&pa);
    let g = groups.create("G");
    let mut indexed = call(pb, vec![], 30);
    indexed.geometry.index_buffer = Some(BufferBinding { buffer: 4, size: 120, range: None });
    indexed.instance_count = 5;
    let mut calls = vec![indexed, call(pa, vec![g], 10), call(pb2, vec![], 20), call(pa2, vec![], 40)];
    let commands = execute_ordered_draw_calls(&mut calls, &pipelines, &groups, &immediates);
    let mut seen = draws(&commands);
    assert_eq!(seen.len(), 4);
    seen.sort_by_key(|c| match c {
        RenderCommand::Draw { count, .. } | RenderCommand::DrawIndexed { count, .. } => *count,
        _ => 0,
    });
    assert_eq!(
        seen,
        vec![
            RenderCommand::Draw { count: 10, instances: 1 },
            RenderCommand::Draw { count: 20, instances: 1 },
            RenderCommand::DrawIndexed { count: 30, instances: 5 },
            RenderCommand::Draw { count: 40, instances: 1 },
        ]
    );
}

#[test]
fn draw_calls_are_sorted_by_pipeline_then_bind_groups() {
    let mut pipelines = Pipelines::new();
    let mut groups = BindGroups::new();
    let immediates = ImmediateManager::new();
    let pa = pipelines.create("PA");
    let pb = pipelines.create("PB");
    let g0 = groups.create("G0");
    let g1 = groups.create("G1");
    let mut calls = vec![
        call(pipelines.clone_handle(&pb), vec![groups.clone_handle(&g0)], 1),
        call(pipelines.clone_handle(&pa), vec![groups.clone_handle(&g1)], 2),
        call(pipelines.clone_handle(&pa), vec![groups.clone_handle(&g0), groups.clone_handle(&g1)], 3),
        call(pipelines.clone_handle(&pa), vec![], 4),
        call(pipelines.clone_handle(&pa), vec![groups.clone_handle(&g0)], 5),
        call(pipelines.clone_handle(&pb), vec![], 6),
    ];
    let _ = execute_ordered_draw_calls(&mut calls, &pipelines, &groups, &immediates);
    let order: Vec<u32> = calls.iter().map(|c| c.geometry.count).collect();
    assert_eq!(order, vec![4, 5, 3, 2, 6, 1]);
}

#[test]
fn equal_keys_keep_their_submission_order() {
    let mut pipelines = Pipelines::new();
    let mut groups = BindGroups::new();
    let immediates = ImmediateManager::new();
    let pa = pipelines.create("PA");
    let pb = pipelines.create("PB");
    let g = groups.create("G");
    let mut calls = vec![
        call(pipelines.clone_handle(&pb), vec![groups.clone_handle(&g)], 1),
        call(pipelines.clone_handle(&pa), vec![], 2),
        call(pipelines.clone_handle(&pb), vec![groups.clone_handle(&g)], 3),
        call(pipelines.clone_handle(&pa), vec![], 4),
        call(pipelines.clone_handle(&pb), vec![groups.clone_handle(&g)], 5),
    ];
    let _ = execute_ordered_draw_calls(&mut calls, &pipelines, &groups, &immediates);
    let order: Vec<u32> = calls.iter().map(|c| c.geometry.count).collect();
    assert_eq!(order, vec![2, 4, 1, 3, 5]);
}

#[test]
fn pipeline_switch_forgets_the_bound_bind_groups() {
    let mut pipelines = Pipelines::new();
    let mut groups = BindGroups::new();
    let immediates = ImmediateManager::new();
    let pa = pipelines.create("PA");
    let pb = pipelines.create("PB");
    let g = groups.create("G");
    let g2 = groups.clone_handle(&g);
    let mut calls = vec![call(pa, vec![g], 1), call(pb, vec![g2], 2)];
    let commands = execute_ordered_draw_calls(&mut calls, &pipelines, &groups, &immediates);
    assert_eq!(
        commands,
        vec![
            RenderCommand::SetPipeline { pipeline: InstanceId(0) },
            RenderCommand::SetBindGroup { slot: 0, bind_group: InstanceId(0) },
            RenderCommand::Draw { count: 1, instances: 1 },
            RenderCommand::SetPipeline { pipeline: InstanceId(1) },
            RenderCommand::SetBindGroup { slot: 0, bind_group: InstanceId(0) },
            RenderCommand::Draw { count: 2, instances: 1 },
        ]
    );
}

#[test]
fn only_changed_slots_are_rebound() {
    let mut pipelines = Pipelines::new();
    let mut groups = BindGroups::new();
    let immediates = ImmediateManager::new();
    let p = pipelines.create("P");
    let g0 = groups.create("G0");
    let g1 = groups.create("G1");
    let g2 = groups.create("G2");
    let mut calls = vec![
        call(pipelines.clone_handle(&p), vec![groups.clone_handle(&g0), groups.clone_handle(&g1)], 1),
        call(pipelines.clone_handle(&p), vec![groups.clone_handle(&g0), groups.clone_handle(&g2)], 2),
        call(pipelines.clone_handle(&p), vec![groups.clone_handle(&g0), groups.clone_handle(&g2)], 3),
    ];
    let commands = execute_ordered_draw_calls(&mut calls, &pipelines, &groups, &immediates);
    assert_eq!(bind_group_binds(&commands), vec![(0, 0), (1, 1), (1, 2)]);
}

#[test]
fn slots_beyond_the_cache_are_always_bound() {
    let mut pipelines = Pipelines::new();
    let mut groups = BindGroups::new();
    let immediates = ImmediateManager::new();
    let p = pipelines.create("P");
    let g = groups.create("G");
    let four = |groups: &mut BindGroups| {
        vec![
            groups.clone_handle(&g),
            groups.clone_handle(&g),
            groups.clone_handle(&g),
            groups.clone_handle(&g),
        ]
    };
    let first = four(&mut groups);
    let second = four(&mut groups);
    let mut calls = vec![
        call(pipelines.clone_handle(&p), first, 1),
        call(pipelines.clone_handle(&p), second, 2),
    ];
    let commands = execute_ordered_draw_calls(&mut calls, &pipelines, &groups, &immediates);
    assert_eq!(bind_group_binds(&commands), vec![(0, 0), (1, 0), (2, 0), (3, 0), (3, 0)]);
}

#[test]
fn shorter_bind_group_list_keeps_the_higher_slots_cached() {
    let mut pipelines = Pipelines::new();
    let mut groups = BindGroups::new();
    let immediates = ImmediateManager::new();
    let p = pipelines.create("P");
    let g0 = groups.create("G0");
    let g1 = groups.create("G1");
    // Sorted order: [g0], [g0, g1], [g0, g1].
    let mut calls = vec![
        call(pipelines.clone_handle(&p), vec![groups.clone_handle(&g0), groups.clone_handle(&g1)], 1),
        call(pipelines.clone_handle(&p), vec![groups.clone_handle(&g0)], 2),
        call(pipelines.clone_handle(&p), vec![groups.clone_handle(&g0), groups.clone_handle(&g1)], 3),
    ];
    let commands = execute_ordered_draw_calls(&mut calls, &pipelines, &groups, &immediates);
    assert_eq!(bind_group_binds(&commands), vec![(0, 0), (1, 1)]);
    let order: Vec<u32> = calls.iter().map(|c| c.geometry.count).collect();
    assert_eq!(order, vec![2, 1, 3]);
}

#[test]
fn vertex_buffers_are_bound_for_every_draw_call() {
    let mut pipelines = Pipelines::new();
    let groups = BindGroups::new();
    let immediates = ImmediateManager::new();
    let p = pipelines.create("P");
    let buffers = vec![
        BufferBinding { buffer: 7, size: 256, range: None },
        BufferBinding { buffer: 8, size: 512, range: Some(BufferRange { start: 16, end: 48 }) },
    ];
    let mut first = call(pipelines.clone_handle(&p), vec![], 3);
    first.geometry.buffers = buffers.clone();
    let mut second = call(pipelines.clone_handle(&p), vec![], 6);
    second.geometry.buffers = buffers;
    let mut calls = vec![first, second];
    let commands = execute_ordered_draw_calls(&mut calls, &pipelines, &groups, &immediates);
    let v0 = RenderCommand::SetVertexBuffer {
        slot: 0,
        buffer: 7,
        range: BufferRange { start: 0, end: 256 },
    };
    let v1 = RenderCommand::SetVertexBuffer {
        slot: 1,
        buffer: 8,
        range: BufferRange { start: 16, end: 48 },
    };
    assert_eq!(
        commands,
        vec![
            RenderCommand::SetPipeline { pipeline: InstanceId(0) },
            v0,
            v1,
            RenderCommand::Draw { count: 3, instances: 1 },
            v0,
            v1,
            RenderCommand::Draw { count: 6, instances: 1 },
        ]
    );
}

#[test]
fn indexed_draw_call_binds_its_index_buffer() {
    let mut pipelines = Pipelines::new();
    let groups = BindGroups::new();
    let immediates = ImmediateManager::new();
    let p = pipelines.create("P");
    let mut c = call(p, vec![], 36);
    c.geometry.index_buffer = Some(BufferBinding {
        buffer: 3,
        size: 72,
        range: Some(BufferRange { start: 0, end: 72 }),
    });
    c.geometry.index_format = IndexFormat::Uint16;
    c.instance_count = 4;
    let mut calls = vec![c];
    let commands = execute_ordered_draw_calls(&mut calls, &pipelines, &groups, &immediates);
    assert_eq!(
        commands,
        vec![
            RenderCommand::SetPipeline { pipeline: InstanceId(0) },
            RenderCommand::SetIndexBuffer {
                buffer: 3,
                range: BufferRange { start: 0, end: 72 },
                format: IndexFormat::Uint16,
            },
            RenderCommand::DrawIndexed { count: 36, instances: 4 },
        ]
    );
}

#[test]
fn live_immediate_data_is_set_and_dead_data_is_skipped() {
    let mut pipelines = Pipelines::new();
    let groups = BindGroups::new();
    let mut immediates = ImmediateManager::new();
    let p = pipelines.create("P");
    let dead = immediates.add(8);
    let live = immediates.add(16);
    assert!(immediates.remove(dead));
    let mut with_live = call(pipelines.clone_handle(&p), vec![], 1);
    with_live.shader_data.immediates = Some(live);
    let mut with_dead = call(pipelines.clone_handle(&p), vec![], 2);
    with_dead.shader_data.immediates = Some(dead);
    let mut with_unknown = call(pipelines.clone_handle(&p), vec![], 3);
    with_unknown.shader_data.immediates = Some(InstanceId(99));
    let mut calls = vec![with_live, with_dead, with_unknown];
    let commands = execute_ordered_draw_calls(&mut calls, &pipelines, &groups, &immediates);
    assert_eq!(
        commands,
        vec![
            RenderCommand::SetPipeline { pipeline: InstanceId(0) },
            RenderCommand::SetImmediates {
                offset: 0,
                immediate: live,
                data: ByteRange { start: 8, end: 24 },
            },
            RenderCommand::Draw { count: 1, instances: 1 },
            RenderCommand::Draw { count: 2, instances: 1 },
            RenderCommand::Draw { count: 3, instances: 1 },
        ]
    );
}

#[test]
fn handles_live_tells_dangling_handles() {
    let mut pipelines = Pipelines::new();
    let mut groups = BindGroups::new();
    let p = pipelines.create("P");
    let q = pipelines.create("Q");
    let g = groups.create("G");
    let h = groups.create("H");
    let calls = vec![
        call(pipelines.clone_handle(&p), vec![groups.clone_handle(&g)], 1),
        call(q, vec![h], 2),
    ];
    assert!(handles_live(&calls, &pipelines, &groups));
    let empty = BindGroups::new();
    assert!(!handles_live(&calls, &pipelines, &empty));
    let none = Pipelines::new();
    assert!(!handles_live(&calls, &none, &groups));
    let no_calls: Vec<Call> = vec![];
    assert!(handles_live(&no_calls, &none, &empty));
}

#[test]
fn compare_orders_by_pipeline_first() {
    let mut pipelines = Pipelines::new();
    let mut groups = BindGroups::new();
    let pa = pipelines.create("PA");
    let pb = pipelines.create("PB");
    let g0 = groups.create("G0");
    let g1 = groups.create("G1");
    let a = call(pipelines.clone_handle(&pa), vec![groups.clone_handle(&g1)], 0);
    let b = call(pipelines.clone_handle(&pb), vec![groups.clone_handle(&g0)], 0);
    assert_eq!(compare_draw_calls(&a, &b), Ordering::Less);
    assert_eq!(compare_draw_calls(&b, &a), Ordering::Greater);
    assert_eq!(compare_draw_calls(&a, &a), Ordering::Equal);
}

#[test]
fn compare_orders_bind_groups_lexicographically() {
    let mut pipelines = Pipelines::new();
    let mut groups = BindGroups::new();
    let p = pipelines.create("P");
    let g0 = groups.create("G0");
    let g1 = groups.create("G1");
    let mut mk = |ids: &[&Handle<&'static str>]| {
        let bgs = ids.iter().map(|h| groups.clone_handle(h)).collect();
        call(pipelines.clone_handle(&p), bgs, 0)
    };
    let none = mk(&[]);
    let zero = mk(&[&g0]);
    let zero_one = mk(&[&g0, &g1]);
    let one = mk(&[&g1]);
    let one_zero = mk(&[&g1, &g0]);
    let sorted = [&none, &zero, &zero_one, &one, &one_zero];
    for i in 0..sorted.len() {
        for j in 0..sorted.len() {
            assert_eq!(compare_draw_calls(sorted[i], sorted[j]), i.cmp(&j));
        }
    }
}

#[test]
fn render_with_ordered_executor_returns_the_commands() {
    let mut pipelines = Pipelines::new();
    let groups = BindGroups::new();
    let immediates = ImmediateManager::new();
    let a = pipelines.create("A");
    let b = pipelines.create("B");
    let mut pass = RenderPass {
        multiview_mask: None,
        draw_calls: vec![call(b, vec![], 2), call(a, vec![], 1)],
        executor: Executor::Ordered,
    };
    match pass.render(&pipelines, &groups, &immediates) {
        RenderPlan::Commands(commands) => assert_eq!(
            commands,
            vec![
                RenderCommand::SetPipeline { pipeline: InstanceId(0) },
                RenderCommand::Draw { count: 1, instances: 1 },
                RenderCommand::SetPipeline { pipeline: InstanceId(1) },
                RenderCommand::Draw { count: 2, instances: 1 },
            ]
        ),
        RenderPlan::Custom => panic!("the ordered executor plans commands"),
    }
    assert_eq!(pass.draw_calls[0].geometry.count, 1);
}

#[test]
fn render_with_custom_executor_leaves_the_draw_calls() {
    let mut pipelines = Pipelines::new();
    let groups = BindGroups::new();
    let immediates = ImmediateManager::new();
    let a = pipelines.create("A");
    let b = pipelines.create("B");
    let mut pass = RenderPass {
        multiview_mask: Some(3),
        draw_calls: vec![call(b, vec![], 2), call(a, vec![], 1)],
        executor: Executor::Custom,
    };
    assert!(matches!(pass.render(&pipelines, &groups, &immediates), RenderPlan::Custom));
    assert_eq!(pass.draw_calls[0].geometry.count, 2);
    assert_eq!(pass.draw_calls[1].geometry.count, 1);
    assert_eq!(pass.multiview_mask, Some(3));
}
