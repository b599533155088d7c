//! What holds of every batch: each draw call is drawn once, each pipeline
//! of a sorted batch is bound once, and a bind group that stays at its slot
//! is not bound again.

use crate::immediate::ByteRange;
use crate::renderpass::{
    all_live, bind_commands, call_live, emitted, is_stable_sort, models, needs_bind, state_at,
    stably_sorted, vertex_commands, BatchState, DrawCall, DrawCallModel, RenderCommand,
    BIND_GROUP_CACHE_SLOTS,
};
use vstd::prelude::*;

verus! {

/// Whether a command draws.
pub open spec fn is_draw(c: RenderCommand) -> bool {
    c is Draw || c is DrawIndexed
}

/// Whether a command binds a pipeline.
pub open spec fn is_pipeline_bind(c: RenderCommand) -> bool {
    c is SetPipeline
}

/// The draw commands among `commands`, in order.
pub open spec fn draws(commands: Seq<RenderCommand>) -> Seq<RenderCommand> {
    commands.filter(|c: RenderCommand| is_draw(c))
}

/// The pipeline binds among `commands`, in order.
pub open spec fn pipeline_binds(commands: Seq<RenderCommand>) -> Seq<RenderCommand> {
    commands.filter(|c: RenderCommand| is_pipeline_bind(c))
}

/// The pipelines of the first `n` draw calls.
pub open spec fn pipelines_of(calls: Seq<DrawCallModel>, n: nat) -> Set<u32> {
    Set::new(|p: u32| exists|i: int| 0 <= i < n && (#[trigger] calls[i]).pipeline == p)
}

/// Whether the pipelines of the draw calls ascend.
pub open spec fn pipelines_ascend(calls: Seq<DrawCallModel>) -> bool {
    forall|i: int, j: int|
        0 <= i < j < calls.len() ==> (#[trigger] calls[i]).pipeline <= (#[trigger] calls[j]).pipeline
}

/// Filtering a sequence of which no element passes leaves nothing.
pub proof fn lemma_filter_none<A>(s: Seq<A>, pred: spec_fn(A) -> bool)
    requires
        forall|i: int| 0 <= i < s.len() ==> !pred(#[trigger] s[i]),
    ensures
        s.filter(pred) == Seq::<A>::empty(),
    decreases s.len(),
{
    reveal(Seq::filter);
    if s.len() > 0 {
        lemma_filter_none(s.drop_last(), pred);
    }
}

/// Filtering a sequence of which every element passes changes nothing.
pub proof fn lemma_filter_all<A>(s: Seq<A>, pred: spec_fn(A) -> bool)
    requires
        forall|i: int| 0 <= i < s.len() ==> pred(#[trigger] s[i]),
    ensures
        s.filter(pred) == s,
    decreases s.len(),
{
    reveal(Seq::filter);
    if s.len() > 0 {
        lemma_filter_all(s.drop_last(), pred);
        assert(s.drop_last().push(s.last()) =~= s);
    }
}

/// Bind-group binds are the only commands among the binds of a draw call.
pub proof fn lemma_bind_commands_kind(cache: Seq<Option<u32>>, bind_groups: Seq<u32>, n: nat)
    ensures
        forall|i: int|
            0 <= i < bind_commands(cache, bind_groups, n).len() ==> (#[trigger] bind_commands(
                cache,
                bind_groups,
                n,
            )[i]) is SetBindGroup,
    decreases n,
{
    if n > 0 {
        lemma_bind_commands_kind(cache, bind_groups, (n - 1) as nat);
    }
}

/// `commands` filtered piece by piece.
proof fn lemma_call_commands_filtered(
    call: DrawCallModel,
    state: BatchState,
    ranges: Map<u32, ByteRange>,
    pred: spec_fn(RenderCommand) -> bool,
)
    ensures
        call.commands(state, ranges).filter(pred) == call.pipeline_commands(state).filter(pred)
            + bind_commands(
            call.cache_before(state),
            call.bind_groups,
            call.bind_groups.len(),
        ).filter(pred) + vertex_commands(call.buffers).filter(pred) + call.immediate_commands(
            ranges,
        ).filter(pred) + call.draw_commands().filter(pred),
{
    let a = call.pipeline_commands(state);
    let b = bind_commands(call.cache_before(state), call.bind_groups, call.bind_groups.len());
    let c = vertex_commands(call.buffers);
    let d = call.immediate_commands(ranges);
    let e = call.draw_commands();
    Seq::filter_distributes_over_add(a, b, pred);
    Seq::filter_distributes_over_add(a + b, c, pred);
    Seq::filter_distributes_over_add(a + b + c, d, pred);
    Seq::filter_distributes_over_add(a + b + c + d, e, pred);
}

/// A draw call emits exactly one draw command: its own.
pub proof fn lemma_call_draws_once(
    call: DrawCallModel,
    state: BatchState,
    ranges: Map<u32, ByteRange>,
)
    ensures
        draws(call.commands(state, ranges)) == seq![call.draw_command()],
{
    let pred = |c: RenderCommand| is_draw(c);
    lemma_call_commands_filtered(call, state, ranges, pred);
    lemma_filter_none(call.pipeline_commands(state), pred);
    lemma_bind_commands_kind(call.cache_before(state), call.bind_groups, call.bind_groups.len());
    lemma_filter_none(
        bind_commands(call.cache_before(state), call.bind_groups, call.bind_groups.len()),
        pred,
    );
    lemma_filter_none(vertex_commands(call.buffers), pred);
    lemma_filter_none(call.immediate_commands(ranges), pred);
    let e = call.draw_commands();
    let last = seq![call.draw_command()];
    lemma_filter_all(last, pred);
    if call.index_buffer is Some {
        let first = e.drop_last();
        assert(e =~= first + last);
        lemma_filter_none(first, pred);
        Seq::filter_distributes_over_add(first, last, pred);
    } else {
        assert(e =~= last);
    }
    assert(Seq::<RenderCommand>::empty() + Seq::<RenderCommand>::empty() + Seq::<
        RenderCommand,
    >::empty() + Seq::<RenderCommand>::empty() + last =~= last);
}

/// A draw call emits one pipeline bind when it switches the pipeline and
/// none otherwise.
pub proof fn lemma_call_pipeline_binds(
    call: DrawCallModel,
    state: BatchState,
    ranges: Map<u32, ByteRange>,
)
    ensures
        pipeline_binds(call.commands(state, ranges)).len() == if call.switches_pipeline(state) {
            1nat
        } else {
            0nat
        },
{
    let pred = |c: RenderCommand| is_pipeline_bind(c);
    lemma_call_commands_filtered(call, state, ranges, pred);
    let a = call.pipeline_commands(state);
    if call.switches_pipeline(state) {
        lemma_filter_all(a, pred);
    } else {
        lemma_filter_none(a, pred);
    }
    lemma_bind_commands_kind(call.cache_before(state), call.bind_groups, call.bind_groups.len());
    lemma_filter_none(
        bind_commands(call.cache_before(state), call.bind_groups, call.bind_groups.len()),
        pred,
    );
    lemma_filter_none(vertex_commands(call.buffers), pred);
    lemma_filter_none(call.immediate_commands(ranges), pred);
    lemma_filter_none(call.draw_commands(), pred);
}

/// Every draw call produces exactly one draw command, in the order of the
/// draw calls: indexed exactly when the draw call has an index buffer.
pub proof fn lemma_one_draw_per_call(
    calls: Seq<DrawCallModel>,
    ranges: Map<u32, ByteRange>,
    n: nat,
)
    requires
        n <= calls.len(),
    ensures
        draws(emitted(calls, ranges, n)) == Seq::new(n, |i: int| calls[i].draw_command()),
    decreases n,
{
    let pred = |c: RenderCommand| is_draw(c);
    if n == 0 {
        lemma_filter_none(emitted(calls, ranges, 0), pred);
        assert(Seq::new(0, |i: int| calls[i].draw_command()) =~= Seq::<RenderCommand>::empty());
    } else {
        let m = (n - 1) as nat;
        lemma_one_draw_per_call(calls, ranges, m);
        lemma_call_draws_once(calls[n - 1], state_at(calls, m), ranges);
        Seq::filter_distributes_over_add(
            emitted(calls, ranges, m),
            calls[n - 1].commands(state_at(calls, m), ranges),
            pred,
        );
        assert(Seq::new(m, |i: int| calls[i].draw_command()) + seq![calls[n - 1].draw_command()]
            =~= Seq::new(n, |i: int| calls[i].draw_command()));
    }
}

/// A stable sort is a rearrangement: every position of the input is the
/// origin of exactly one position of the output.
pub proof fn lemma_sort_reaches_every_call<P, B>(
    before: Seq<DrawCall<P, B>>,
    after: Seq<DrawCall<P, B>>,
    p: Seq<int>,
    j: int,
)
    requires
        is_stable_sort(before, after, p),
        0 <= j < before.len(),
    ensures
        exists|i: int| 0 <= i < after.len() && p[i] == j && after[i] == before[j],
{
    let n = before.len() as int;
    p.unique_seq_to_set();
    vstd::seq_lib::seq_to_set_is_finite(p);
    vstd::set_lib::lemma_int_range(0, n);
    let range = vstd::set_lib::set_int_range(0, n);
    assert(p.to_set().subset_of(range)) by {
        assert forall|v: int| p.to_set().contains(v) implies range.contains(v) by {
            let k = choose|k: int| 0 <= k < p.len() && p[k] == v;
            assert(0 <= p[k] < n);
        }
    }
    vstd::set_lib::lemma_subset_equality(p.to_set(), range);
    assert(range.contains(j));
    assert(p.to_set().contains(j));
    let i = choose|i: int| 0 <= i < p.len() && p[i] == j;
    assert(after[i] == before[p[i]]);
}

/// However the draw calls are sorted, every draw call that was submitted
/// is drawn exactly once: the batch holds as many draw commands as draw
/// calls, and the draw command of each submitted call is among them, at
/// the position that the sort gave to the call.
pub proof fn lemma_every_call_drawn_once<P, B>(
    before: Seq<DrawCall<P, B>>,
    after: Seq<DrawCall<P, B>>,
    ranges: Map<u32, ByteRange>,
    j: int,
)
    requires
        stably_sorted(before, after),
        0 <= j < before.len(),
    ensures
        draws(emitted(models(after), ranges, after.len())).len() == before.len(),
        exists|i: int|
            0 <= i < after.len() && after[i] == before[j] && draws(
                emitted(models(after), ranges, after.len()),
            )[i] == before[j]@.draw_command(),
{
    let p = choose|p: Seq<int>| is_stable_sort(before, after, p);
    lemma_sort_reaches_every_call(before, after, p, j);
    lemma_one_draw_per_call(models(after), ranges, after.len());
    let i = choose|i: int| 0 <= i < after.len() && p[i] == j && after[i] == before[j];
    assert(models(after)[i] == after[i]@);
}

/// A bind group that the preceding draw call of the same pipeline bound at
/// a remembered slot is not bound again, nor is the pipeline.
pub proof fn lemma_repeated_bind_group_not_rebound(
    prev: DrawCallModel,
    call: DrawCallModel,
    state: BatchState,
    slot: int,
)
    requires
        state.cache.len() == BIND_GROUP_CACHE_SLOTS,
        prev.pipeline == call.pipeline,
        0 <= slot < BIND_GROUP_CACHE_SLOTS,
        slot < prev.bind_groups.len(),
        slot < call.bind_groups.len(),
        prev.bind_groups[slot] == call.bind_groups[slot],
    ensures
        !call.switches_pipeline(prev.state_after(state)),
        !needs_bind(
            call.cache_before(prev.state_after(state)),
            slot,
            call.bind_groups[slot],
        ),
{
}

/// The first `n` draw calls of a batch whose pipelines ascend bind each of
/// their pipelines exactly once.
pub proof fn lemma_pipeline_bound_once(
    calls: Seq<DrawCallModel>,
    ranges: Map<u32, ByteRange>,
    n: nat,
)
    requires
        n <= calls.len(),
        pipelines_ascend(calls),
    ensures
        pipelines_of(calls, n).finite(),
        pipeline_binds(emitted(calls, ranges, n)).len() == pipelines_of(calls, n).len(),
    decreases n,
{
    let pred = |c: RenderCommand| is_pipeline_bind(c);
    if n == 0 {
        lemma_filter_none(emitted(calls, ranges, 0), pred);
        assert(pipelines_of(calls, 0) =~= Set::<u32>::empty());
    } else {
        let m = (n - 1) as nat;
        let call = calls[n - 1];
        let state = state_at(calls, m);
        lemma_pipeline_bound_once(calls, ranges, m);
        lemma_call_pipeline_binds(call, state, ranges);
        Seq::filter_distributes_over_add(
            emitted(calls, ranges, m),
            call.commands(state, ranges),
            pred,
        );
        let earlier = pipelines_of(calls, m);
        assert(pipelines_of(calls, n) =~= earlier.insert(call.pipeline)) by {
            assert forall|p: u32| pipelines_of(calls, n).contains(p) implies earlier.insert(
                call.pipeline,
            ).contains(p) by {
                let i = choose|i: int| 0 <= i < n && (#[trigger] calls[i]).pipeline == p;
                if i < m {
                    assert(earlier.contains(calls[i].pipeline));
                }
            }
            assert forall|p: u32| earlier.insert(call.pipeline).contains(
                p,
            ) implies pipelines_of(calls, n).contains(p) by {
                if p == call.pipeline {
                    assert(calls[n - 1].pipeline == p);
                } else {
                    let i = choose|i: int| 0 <= i < m && (#[trigger] calls[i]).pipeline == p;
                    assert(calls[i].pipeline == p);
                }
            }
        }
        if m == 0 {
            assert(call.switches_pipeline(state));
            assert(!earlier.contains(call.pipeline));
        } else {
            assert(state.pipeline == Some(calls[m - 1].pipeline));
            if call.switches_pipeline(state) {
                assert(!earlier.contains(call.pipeline)) by {
                    if earlier.contains(call.pipeline) {
                        let i = choose|i: int|
                            0 <= i < m && (#[trigger] calls[i]).pipeline == call.pipeline;
                        assert(calls[i].pipeline <= calls[m - 1].pipeline);
                        assert(calls[m - 1].pipeline <= calls[n - 1].pipeline);
                    }
                }
            } else {
                assert(earlier.contains(calls[m - 1].pipeline));
            }
        }
    }
}

/// A sorted batch binds every pipeline that its draw calls name exactly
/// once: the number of pipeline binds is the number of distinct pipelines
/// submitted.
pub proof fn lemma_sorted_batch_binds_each_pipeline_once<P, B>(
    before: Seq<DrawCall<P, B>>,
    after: Seq<DrawCall<P, B>>,
    ranges: Map<u32, ByteRange>,
)
    requires
        stably_sorted(before, after),
    ensures
        pipelines_of(models(before), before.len()).finite(),
        pipeline_binds(emitted(models(after), ranges, after.len())).len() == pipelines_of(
            models(before),
            before.len(),
        ).len(),
{
    let p = choose|p: Seq<int>| is_stable_sort(before, after, p);
    let a = models(after);
    let b = models(before);
    assert(pipelines_ascend(a)) by {
        assert forall|i: int, j: int| 0 <= i < j < a.len() implies (#[trigger] a[i]).pipeline <= (
        #[trigger] a[j]).pipeline by {
            assert(after[i]@.key_le(after[j]@));
        }
    }
    lemma_pipeline_bound_once(a, ranges, after.len());
    assert(pipelines_of(a, after.len()) =~= pipelines_of(b, before.len())) by {
        assert forall|x: u32| pipelines_of(a, after.len()).contains(x) implies pipelines_of(
            b,
            before.len(),
        ).contains(x) by {
            let i = choose|i: int| 0 <= i < after.len() && (#[trigger] a[i]).pipeline == x;
            assert(after[i] == before[p[i]]);
            assert(b[p[i]].pipeline == x);
        }
        assert forall|x: u32| pipelines_of(b, before.len()).contains(x) implies pipelines_of(
            a,
            after.len(),
        ).contains(x) by {
            let j = choose|j: int| 0 <= j < before.len() && (#[trigger] b[j]).pipeline == x;
            lemma_sort_reaches_every_call(before, after, p, j);
            let i = choose|i: int| 0 <= i < after.len() && p[i] == j && after[i] == before[j];
            assert(a[i].pipeline == x);
        }
    }
}


/// Whether a command names only what is live: a pipeline of `pipelines`, a
/// bind group of `bind_groups`, or immediate data that the manager holds at
/// the range that the command gives.
pub open spec fn resolves(
    c: RenderCommand,
    pipelines: Set<u32>,
    bind_groups: Set<u32>,
    ranges: Map<u32, ByteRange>,
) -> bool {
    match c {
        RenderCommand::SetPipeline { pipeline } => pipelines.contains(pipeline.0),
        RenderCommand::SetBindGroup { slot, bind_group } => bind_groups.contains(bind_group.0),
        RenderCommand::SetImmediates { offset, immediate, data } => ranges.dom().contains(
            immediate.0,
        ) && data == ranges[immediate.0],
        _ => true,
    }
}

/// Every bind of a draw call names one of the bind groups of the call.
pub proof fn lemma_bind_commands_resolve(
    cache: Seq<Option<u32>>,
    groups: Seq<u32>,
    n: nat,
    pipelines: Set<u32>,
    bind_groups: Set<u32>,
    ranges: Map<u32, ByteRange>,
)
    requires
        n <= groups.len(),
        forall|j: int| 0 <= j < groups.len() ==> bind_groups.contains(#[trigger] groups[j]),
    ensures
        forall|i: int|
            0 <= i < bind_commands(cache, groups, n).len() ==> resolves(
                #[trigger] bind_commands(cache, groups, n)[i],
                pipelines,
                bind_groups,
                ranges,
            ),
    decreases n,
{
    if n > 0 {
        let before = bind_commands(cache, groups, (n - 1) as nat);
        let all = bind_commands(cache, groups, n);
        lemma_bind_commands_resolve(cache, groups, (n - 1) as nat, pipelines, bind_groups, ranges);
        assert(bind_groups.contains(groups[n - 1]));
        assert forall|i: int| 0 <= i < all.len() implies resolves(
            #[trigger] all[i],
            pipelines,
            bind_groups,
            ranges,
        ) by {
            if i < before.len() {
                assert(all[i] == before[i]);
            }
        }
    }
}

/// The commands of a draw call whose handles are live name only what is
/// live.
pub proof fn lemma_call_commands_resolve(
    call: DrawCallModel,
    state: BatchState,
    pipelines: Set<u32>,
    bind_groups: Set<u32>,
    ranges: Map<u32, ByteRange>,
)
    requires
        call_live(call, pipelines, bind_groups),
    ensures
        forall|i: int|
            0 <= i < call.commands(state, ranges).len() ==> resolves(
                #[trigger] call.commands(state, ranges)[i],
                pipelines,
                bind_groups,
                ranges,
            ),
{
    let a = call.pipeline_commands(state);
    let b = bind_commands(call.cache_before(state), call.bind_groups, call.bind_groups.len());
    let c = vertex_commands(call.buffers);
    let d = call.immediate_commands(ranges);
    let e = call.draw_commands();
    lemma_bind_commands_resolve(
        call.cache_before(state),
        call.bind_groups,
        call.bind_groups.len(),
        pipelines,
        bind_groups,
        ranges,
    );
    let all = call.commands(state, ranges);
    assert(all == a + b + c + d + e);
    assert forall|i: int| 0 <= i < all.len() implies resolves(
        #[trigger] all[i],
        pipelines,
        bind_groups,
        ranges,
    ) by {
        if i < a.len() {
            assert(all[i] == a[i]);
        } else if i < a.len() + b.len() {
            assert(all[i] == b[i - a.len()]);
        } else if i < a.len() + b.len() + c.len() {
            assert(all[i] == c[i - a.len() - b.len()]);
        } else if i < a.len() + b.len() + c.len() + d.len() {
            assert(all[i] == d[i - a.len() - b.len() - c.len()]);
        } else {
            assert(all[i] == e[i - a.len() - b.len() - c.len() - d.len()]);
        }
    }
}

/// When every handle of the draw calls is live, every command of the batch
/// names a live pipeline, a live bind group, or immediate data that the
/// manager holds: replaying the batch finds whatever it looks up.
pub proof fn lemma_batch_resolves(
    calls: Seq<DrawCallModel>,
    pipelines: Set<u32>,
    bind_groups: Set<u32>,
    ranges: Map<u32, ByteRange>,
    n: nat,
)
    requires
        n <= calls.len(),
        all_live(calls, pipelines, bind_groups),
    ensures
        forall|i: int|
            0 <= i < emitted(calls, ranges, n).len() ==> resolves(
                #[trigger] emitted(calls, ranges, n)[i],
                pipelines,
                bind_groups,
                ranges,
            ),
    decreases n,
{
    if n > 0 {
        let m = (n - 1) as nat;
        lemma_batch_resolves(calls, pipelines, bind_groups, ranges, m);
        assert(call_live(calls[n - 1], pipelines, bind_groups));
        lemma_call_commands_resolve(calls[n - 1], state_at(calls, m), pipelines, bind_groups, ranges);
        let before = emitted(calls, ranges, m);
        let last = calls[n - 1].commands(state_at(calls, m), ranges);
        let all = emitted(calls, ranges, n);
        assert forall|i: int| 0 <= i < all.len() implies resolves(
            #[trigger] all[i],
            pipelines,
            bind_groups,
            ranges,
        ) by {
            if i < before.len() {
                assert(all[i] == before[i]);
            } else {
                assert(all[i] == last[i - before.len()]);
            }
        }
    }
}

} // verus!
