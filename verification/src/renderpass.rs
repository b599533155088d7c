//! Draw-call batching: orders draw calls by pipeline and bind groups and
//! emits the commands that replay them with the fewest state changes.

use crate::batch_laws::{lemma_batch_resolves, resolves};
use crate::batch_order::sort_draw_calls;
use crate::bind_cache::{
    cache_fill, cache_filled, cache_get, cache_len, cache_set, cache_slots, BindGroupCache,
};
use crate::geometry::IndexFormat;
use crate::handle::{Handle, ResourcePool};
use crate::immediate::{ByteRange, ImmediateManager};
use crate::utils::InstanceId;
use vstd::pervasive::unreached;
use vstd::prelude::*;

verus! {

/// Number of bind-group slots whose bound identity is remembered.
pub const BIND_GROUP_CACHE_SLOTS: usize = 3;

/// A range of bytes, `start..end`, of a GPU buffer.
#[derive(Debug, Clone, Copy, PartialEq, Eq, Structural)]
pub struct BufferRange {
    pub start: u64,
    pub end: u64,
}

/// A GPU buffer as the batching sees it: a key by which the caller finds
/// the buffer again, its size in bytes, and the part of it to bind, the
/// whole buffer when no range is given.
#[derive(Debug, Clone, Copy, PartialEq, Eq, Structural)]
pub struct BufferBinding {
    pub buffer: u32,
    pub size: u64,
    pub range: Option<BufferRange>,
}

impl BufferBinding {
    /// The bytes to bind.
    pub open spec fn bound_range(self) -> BufferRange {
        match self.range {
            Some(r) => r,
            None => BufferRange { start: 0, end: self.size },
        }
    }

    pub fn resolve(&self) -> (r: BufferRange)
        ensures
            r == self.bound_range(),
    {
        match self.range {
            Some(r) => r,
            None => BufferRange { start: 0, end: self.size },
        }
    }
}

/// The buffers of one draw call and the number of elements to draw:
/// indices when an index buffer is present, vertices otherwise.
#[derive(Debug)]
pub struct DrawGeometry {
    pub buffers: Vec<BufferBinding>,
    pub index_buffer: Option<BufferBinding>,
    pub index_format: IndexFormat,
    pub count: u32,
}

/// The shader inputs of one draw call: its bind groups by slot and an
/// optional block of immediate data.
#[derive(Debug)]
pub struct ShaderData<B> {
    pub bind_groups: Vec<Handle<B>>,
    pub immediates: Option<InstanceId>,
}

/// One request to draw a geometry with a pipeline.
#[derive(Debug)]
pub struct DrawCall<P, B> {
    pub render_pipeline_handle: Handle<P>,
    pub shader_data: ShaderData<B>,
    pub geometry: DrawGeometry,
    pub instance_count: u32,
}

/// A draw call as plain mathematical data.
pub struct DrawCallModel {
    pub pipeline: u32,
    pub bind_groups: Seq<u32>,
    pub immediates: Option<u32>,
    pub buffers: Seq<BufferBinding>,
    pub index_buffer: Option<BufferBinding>,
    pub index_format: IndexFormat,
    pub count: u32,
    pub instance_count: u32,
}

impl<P, B> View for DrawCall<P, B> {
    type V = DrawCallModel;

    open spec fn view(&self) -> DrawCallModel {
        DrawCallModel {
            pipeline: self.render_pipeline_handle@,
            bind_groups: Seq::new(
                self.shader_data.bind_groups@.len(),
                |i: int| self.shader_data.bind_groups@[i]@,
            ),
            immediates: match self.shader_data.immediates {
                Some(id) => Some(id.0),
                None => None,
            },
            buffers: self.geometry.buffers@,
            index_buffer: self.geometry.index_buffer,
            index_format: self.geometry.index_format,
            count: self.geometry.count,
            instance_count: self.instance_count,
        }
    }
}

/// The models of a sequence of draw calls.
pub open spec fn models<P, B>(calls: Seq<DrawCall<P, B>>) -> Seq<DrawCallModel> {
    Seq::new(calls.len(), |i: int| calls[i]@)
}

/// Lexicographic order on identifier sequences: at the first difference the
/// smaller identifier decides, and a proper prefix comes first.
pub open spec fn lex_le(a: Seq<u32>, b: Seq<u32>) -> bool
    decreases a.len(),
{
    if a.len() == 0 {
        true
    } else if b.len() == 0 {
        false
    } else if a[0] != b[0] {
        a[0] < b[0]
    } else {
        lex_le(a.drop_first(), b.drop_first())
    }
}

impl DrawCallModel {
    /// The batching order: by pipeline first, then by the bind groups.
    pub open spec fn key_le(self, other: DrawCallModel) -> bool {
        if self.pipeline != other.pipeline {
            self.pipeline < other.pipeline
        } else {
            lex_le(self.bind_groups, other.bind_groups)
        }
    }

    /// Whether two draw calls have the same pipeline and bind groups.
    pub open spec fn key_eq(self, other: DrawCallModel) -> bool {
        self.pipeline == other.pipeline && self.bind_groups == other.bind_groups
    }
}

/// The lexicographic order is reflexive.
pub proof fn lemma_lex_le_reflexive(a: Seq<u32>)
    ensures
        lex_le(a, a),
    decreases a.len(),
{
    if a.len() > 0 {
        lemma_lex_le_reflexive(a.drop_first());
    }
}

/// The lexicographic order is total.
pub proof fn lemma_lex_le_total(a: Seq<u32>, b: Seq<u32>)
    ensures
        lex_le(a, b) || lex_le(b, a),
    decreases a.len(),
{
    if a.len() > 0 && b.len() > 0 && a[0] == b[0] {
        lemma_lex_le_total(a.drop_first(), b.drop_first());
    }
}

/// The lexicographic order is antisymmetric.
pub proof fn lemma_lex_le_antisymmetric(a: Seq<u32>, b: Seq<u32>)
    requires
        lex_le(a, b),
        lex_le(b, a),
    ensures
        a == b,
    decreases a.len(),
{
    if a.len() > 0 {
        lemma_lex_le_antisymmetric(a.drop_first(), b.drop_first());
        assert(a =~= seq![a[0]] + a.drop_first());
        assert(b =~= seq![b[0]] + b.drop_first());
    } else {
        assert(a =~= b);
    }
}

/// The lexicographic order is transitive.
pub proof fn lemma_lex_le_transitive(a: Seq<u32>, b: Seq<u32>, c: Seq<u32>)
    requires
        lex_le(a, b),
        lex_le(b, c),
    ensures
        lex_le(a, c),
    decreases a.len(),
{
    if a.len() > 0 && a[0] == b[0] && b[0] == c[0] {
        lemma_lex_le_transitive(a.drop_first(), b.drop_first(), c.drop_first());
    }
}

/// The batching order is a total preorder whose ties are the draw calls
/// with equal pipeline and bind groups.
pub proof fn lemma_key_order(a: DrawCallModel, b: DrawCallModel, c: DrawCallModel)
    ensures
        a.key_le(a),
        a.key_le(b) || b.key_le(a),
        a.key_le(b) && b.key_le(c) ==> a.key_le(c),
        a.key_le(b) && b.key_le(a) <==> a.key_eq(b),
{
    lemma_lex_le_reflexive(a.bind_groups);
    lemma_lex_le_total(a.bind_groups, b.bind_groups);
    if a.key_le(b) && b.key_le(c) && a.pipeline == b.pipeline && b.pipeline == c.pipeline {
        lemma_lex_le_transitive(a.bind_groups, b.bind_groups, c.bind_groups);
    }
    if a.key_le(b) && b.key_le(a) {
        lemma_lex_le_antisymmetric(a.bind_groups, b.bind_groups);
    }
}


/// The part of `s` from position `i` on.
pub open spec fn tail_from(s: Seq<u32>, i: usize) -> Seq<u32> {
    s.skip(i as int)
}

/// The position `i` as a mathematical integer.
pub open spec fn tail_index(i: usize) -> int {
    i as int
}

/// Sequences that agree on their first `i` elements compare as their
/// remainders do.
pub proof fn lemma_lex_le_common_prefix(a: Seq<u32>, b: Seq<u32>, i: int)
    requires
        0 <= i <= a.len(),
        i <= b.len(),
        forall|j: int| 0 <= j < i ==> a[j] == b[j],
    ensures
        lex_le(a, b) == lex_le(a.skip(i), b.skip(i)),
    decreases i,
{
    if i == 0 {
        assert(a.skip(0) =~= a);
        assert(b.skip(0) =~= b);
    } else {
        assert(a[0] == b[0]);
        let a1 = a.drop_first();
        let b1 = b.drop_first();
        assert forall|j: int| 0 <= j < i - 1 implies a1[j] == b1[j] by {
            assert(a[j + 1] == b[j + 1]);
        }
        lemma_lex_le_common_prefix(a1, b1, i - 1);
        assert(a1.skip(i - 1) =~= a.skip(i));
        assert(b1.skip(i - 1) =~= b.skip(i));
    }
}

/// `after` is `before` sorted stably by the batching order: position `i`
/// of `after` holds the draw call that stood at `p[i]` in `before`, keys
/// ascend, and draw calls with equal keys keep their relative order.
pub open spec fn is_stable_sort<P, B>(
    before: Seq<DrawCall<P, B>>,
    after: Seq<DrawCall<P, B>>,
    p: Seq<int>,
) -> bool {
    &&& after.len() == before.len()
    &&& p.len() == before.len()
    &&& p.no_duplicates()
    &&& forall|i: int| 0 <= i < p.len() ==> 0 <= #[trigger] p[i] < before.len()
    &&& forall|i: int| 0 <= i < after.len() ==> #[trigger] after[i] == before[p[i]]
    &&& forall|i: int, j: int|
        0 <= i < j < after.len() ==> (#[trigger] after[i])@.key_le((#[trigger] after[j])@)
    &&& forall|i: int, j: int|
        0 <= i < j < after.len() && after[i]@.key_eq(after[j]@) ==> #[trigger] p[i]
            < #[trigger] p[j]
}

/// `after` is `before` sorted stably by the batching order.
pub open spec fn stably_sorted<P, B>(
    before: Seq<DrawCall<P, B>>,
    after: Seq<DrawCall<P, B>>,
) -> bool {
    exists|p: Seq<int>| is_stable_sort(before, after, p)
}


/// One command for the recorder of a render pass.
#[derive(Debug, Clone, Copy, PartialEq, Eq, Structural)]
pub enum RenderCommand {
    /// Bind the pipeline with this identifier.
    SetPipeline { pipeline: InstanceId },
    /// Bind the bind group with this identifier at `slot`.
    SetBindGroup { slot: u32, bind_group: InstanceId },
    /// Bind the bytes `range` of `buffer` as vertex buffer `slot`.
    SetVertexBuffer { slot: u32, buffer: u32, range: BufferRange },
    /// Set the immediate data at `offset` to the bytes that the immediate
    /// manager holds for `immediate`, which are those of `data`.
    SetImmediates { offset: u32, immediate: InstanceId, data: ByteRange },
    /// Bind the bytes `range` of `buffer` as index buffer.
    SetIndexBuffer { buffer: u32, range: BufferRange, format: IndexFormat },
    /// Draw the indices `0..count` for the instances `0..instances`.
    DrawIndexed { count: u32, instances: u32 },
    /// Draw the vertices `0..count` for the instances `0..instances`.
    Draw { count: u32, instances: u32 },
}

/// What the recorder has bound: the pipeline, and the bind group of each
/// remembered slot.
pub struct BatchState {
    pub pipeline: Option<u32>,
    pub cache: Seq<Option<u32>>,
}

/// The slot number of position `i`.
pub open spec fn slot_of(i: usize) -> u32 {
    i as u32
}

/// A cache of `n` slots of which none is known.
pub open spec fn empty_cache(n: nat) -> Seq<Option<u32>> {
    Seq::new(n, |i: int| None::<u32>)
}

/// The state before the first draw call: nothing is bound.
pub open spec fn initial_state() -> BatchState {
    BatchState { pipeline: None, cache: empty_cache(BIND_GROUP_CACHE_SLOTS as nat) }
}

/// Whether the bind group `bind_group` has to be bound at `slot`: always
/// for a slot that is not remembered, else unless it is bound there.
pub open spec fn needs_bind(cache: Seq<Option<u32>>, slot: int, bind_group: u32) -> bool {
    slot >= cache.len() || cache[slot] != Some(bind_group)
}

/// The binds for the first `n` bind groups of a draw call.
pub open spec fn bind_commands(cache: Seq<Option<u32>>, bind_groups: Seq<u32>, n: nat) -> Seq<
    RenderCommand,
>
    decreases n,
{
    if n == 0 {
        Seq::empty()
    } else {
        let i = (n - 1) as nat;
        let before = bind_commands(cache, bind_groups, i);
        if needs_bind(cache, i as int, bind_groups[i as int]) {
            before.push(
                RenderCommand::SetBindGroup {
                    slot: slot_of(i as usize),
                    bind_group: InstanceId(bind_groups[i as int]),
                },
            )
        } else {
            before
        }
    }
}

/// The cache after the bind groups of a draw call were bound.
pub open spec fn rebound(cache: Seq<Option<u32>>, bind_groups: Seq<u32>) -> Seq<Option<u32>> {
    Seq::new(
        cache.len(),
        |s: int|
            if s < bind_groups.len() {
                Some(bind_groups[s])
            } else {
                cache[s]
            },
    )
}

/// The vertex-buffer binds of a draw call: every buffer, at its position.
pub open spec fn vertex_commands(buffers: Seq<BufferBinding>) -> Seq<RenderCommand> {
    Seq::new(
        buffers.len(),
        |i: int|
            RenderCommand::SetVertexBuffer {
                slot: slot_of(i as usize),
                buffer: buffers[i].buffer,
                range: buffers[i].bound_range(),
            },
    )
}

impl DrawCallModel {
    /// Whether the pipeline has to be bound for this draw call.
    pub open spec fn switches_pipeline(self, state: BatchState) -> bool {
        state.pipeline != Some(self.pipeline)
    }

    /// The cache that the bind groups of this draw call are checked
    /// against: nothing is known after a pipeline switch.
    pub open spec fn cache_before(self, state: BatchState) -> Seq<Option<u32>> {
        if self.switches_pipeline(state) {
            empty_cache(state.cache.len())
        } else {
            state.cache
        }
    }

    /// The pipeline bind of this draw call, if one is needed.
    pub open spec fn pipeline_commands(self, state: BatchState) -> Seq<RenderCommand> {
        if self.switches_pipeline(state) {
            seq![RenderCommand::SetPipeline { pipeline: InstanceId(self.pipeline) }]
        } else {
            Seq::empty()
        }
    }

    /// The immediate data of this draw call: set when the draw call names
    /// an identifier that is live in the manager, skipped otherwise.
    pub open spec fn immediate_commands(self, ranges: Map<u32, ByteRange>) -> Seq<RenderCommand> {
        match self.immediates {
            Some(id) if ranges.dom().contains(id) => seq![
                RenderCommand::SetImmediates {
                    offset: 0,
                    immediate: InstanceId(id),
                    data: ranges[id],
                },
            ],
            _ => Seq::empty(),
        }
    }

    /// The draw command of this draw call: indexed exactly when the draw
    /// call has an index buffer.
    pub open spec fn draw_command(self) -> RenderCommand {
        if self.index_buffer is Some {
            RenderCommand::DrawIndexed { count: self.count, instances: self.instance_count }
        } else {
            RenderCommand::Draw { count: self.count, instances: self.instance_count }
        }
    }

    /// The index-buffer bind, if any, and the draw command.
    pub open spec fn draw_commands(self) -> Seq<RenderCommand> {
        match self.index_buffer {
            Some(ib) => seq![
                RenderCommand::SetIndexBuffer {
                    buffer: ib.buffer,
                    range: ib.bound_range(),
                    format: self.index_format,
                },
                self.draw_command(),
            ],
            None => seq![self.draw_command()],
        }
    }

    /// All commands of this draw call, in the order in which they are
    /// emitted.
    pub open spec fn commands(self, state: BatchState, ranges: Map<u32, ByteRange>) -> Seq<
        RenderCommand,
    > {
        self.pipeline_commands(state) + bind_commands(
            self.cache_before(state),
            self.bind_groups,
            self.bind_groups.len(),
        ) + vertex_commands(self.buffers) + self.immediate_commands(ranges) + self.draw_commands()
    }

    /// What is bound after this draw call.
    pub open spec fn state_after(self, state: BatchState) -> BatchState {
        BatchState {
            pipeline: Some(self.pipeline),
            cache: rebound(self.cache_before(state), self.bind_groups),
        }
    }
}

/// What is bound after the first `n` draw calls of `calls`.
pub open spec fn state_at(calls: Seq<DrawCallModel>, n: nat) -> BatchState
    decreases n,
{
    if n == 0 {
        initial_state()
    } else {
        calls[n - 1].state_after(state_at(calls, (n - 1) as nat))
    }
}

/// The commands of the first `n` draw calls of `calls`, replayed in order.
pub open spec fn emitted(calls: Seq<DrawCallModel>, ranges: Map<u32, ByteRange>, n: nat) -> Seq<
    RenderCommand,
>
    decreases n,
{
    if n == 0 {
        Seq::empty()
    } else {
        emitted(calls, ranges, (n - 1) as nat) + calls[n - 1].commands(
            state_at(calls, (n - 1) as nat),
            ranges,
        )
    }
}


/// Whether the pipeline and every bind group of `call` is live.
pub open spec fn call_live(call: DrawCallModel, pipelines: Set<u32>, bind_groups: Set<u32>) -> bool {
    &&& pipelines.contains(call.pipeline)
    &&& forall|j: int|
        0 <= j < call.bind_groups.len() ==> bind_groups.contains(#[trigger] call.bind_groups[j])
}

/// Whether the pipeline and every bind group of every draw call is live.
pub open spec fn all_live(calls: Seq<DrawCallModel>, pipelines: Set<u32>, bind_groups: Set<u32>) -> bool {
    forall|i: int| 0 <= i < calls.len() ==> call_live(#[trigger] calls[i], pipelines, bind_groups)
}

/// The recorder state that the executable state stands for.
pub open spec fn batch_state(pipeline: Option<InstanceId>, cache: BindGroupCache) -> BatchState {
    BatchState {
        pipeline: match pipeline {
            Some(id) => Some(id.0),
            None => None,
        },
        cache: cache_slots(cache),
    }
}

/// Binds the pipeline of `call` unless it is bound already; a switch
/// forgets every bind group.
fn emit_pipeline<P, B>(
    call: &DrawCall<P, B>,
    current_pipeline: &mut Option<InstanceId>,
    cache: &mut BindGroupCache,
    pipeline_storage: &ResourcePool<P>,
    commands: &mut Vec<RenderCommand>,
)
    requires
        pipeline_storage.wf(),
        pipeline_storage@.values.dom().contains(call@.pipeline),
    ensures
        final(commands)@ == old(commands)@ + call@.pipeline_commands(
            batch_state(*old(current_pipeline), *old(cache)),
        ),
        *final(current_pipeline) == Some(InstanceId(call@.pipeline)),
        cache_slots(*final(cache)) == call@.cache_before(
            batch_state(*old(current_pipeline), *old(cache)),
        ),
{
    let ghost state = batch_state(*current_pipeline, *cache);
    let ghost base = commands@;
    let pipeline = call.render_pipeline_handle.id();
    let switch = match *current_pipeline {
        Some(current) => current.0 != pipeline.0,
        None => true,
    };
    if switch {
        match pipeline_storage.get(pipeline) {
            Some(_) => {},
            None => unreached(),
        }
        commands.push(RenderCommand::SetPipeline { pipeline });
        *current_pipeline = Some(pipeline);
        cache_fill(cache, None);
    }
    proof {
        assert(cache_slots(*cache) =~= call@.cache_before(state));
        assert(commands@ =~= base + call@.pipeline_commands(state));
    }
}

/// Binds every bind group of `call` that is not known to be bound at its
/// slot, and remembers it where the slot is remembered.
fn emit_bind_groups<P, B>(
    call: &DrawCall<P, B>,
    cache: &mut BindGroupCache,
    bind_group_storage: &ResourcePool<B>,
    commands: &mut Vec<RenderCommand>,
)
    requires
        bind_group_storage.wf(),
        forall|j: int|
            0 <= j < call@.bind_groups.len() ==> bind_group_storage@.values.dom().contains(
                #[trigger] call@.bind_groups[j],
            ),
    ensures
        final(commands)@ == old(commands)@ + bind_commands(
            cache_slots(*old(cache)),
            call@.bind_groups,
            call@.bind_groups.len(),
        ),
        cache_slots(*final(cache)) == rebound(cache_slots(*old(cache)), call@.bind_groups),
{
    let ghost base = commands@;
    let ghost model = call@;
    let ghost cache0 = cache_slots(*cache);
    let groups = &call.shader_data.bind_groups;
    let slots = cache_len(cache);
    let mut i: usize = 0;
    while i < groups.len()
        invariant
            0 <= i <= groups@.len(),
            groups@ == call.shader_data.bind_groups@,
            model == call@,
            bind_group_storage.wf(),
            forall|j: int|
                0 <= j < model.bind_groups.len() ==> bind_group_storage@.values.dom().contains(
                    #[trigger] model.bind_groups[j],
                ),
            slots == cache0.len(),
            cache_slots(*cache).len() == cache0.len(),
            forall|s: int|
                0 <= s < cache0.len() ==> #[trigger] cache_slots(*cache)[s] == if s < i {
                    Some(model.bind_groups[s])
                } else {
                    cache0[s]
                },
            commands@ == base + bind_commands(cache0, model.bind_groups, i as nat),
        decreases groups@.len() - i,
    {
        let bind_group = groups[i].id();
        assert(model.bind_groups[i as int] == bind_group.0);
        let bind = if i >= slots {
            true
        } else {
            match cache_get(cache, i) {
                Some(bound) => bound != bind_group.0,
                None => true,
            }
        };
        assert(bind == needs_bind(cache0, i as int, bind_group.0));
        if bind {
            match bind_group_storage.get(bind_group) {
                Some(_) => {},
                None => unreached(),
            }
            commands.push(RenderCommand::SetBindGroup { slot: i as u32, bind_group });
            if i < slots {
                cache_set(cache, i, Some(bind_group.0));
            }
        }
        i += 1;
    }
    proof {
        assert(cache_slots(*cache) =~= rebound(cache0, model.bind_groups));
    }
}

/// Binds every vertex buffer of `call` at its position.
fn emit_vertex_buffers<P, B>(call: &DrawCall<P, B>, commands: &mut Vec<RenderCommand>)
    ensures
        final(commands)@ == old(commands)@ + vertex_commands(call@.buffers),
{
    let ghost base = commands@;
    let ghost all = vertex_commands(call@.buffers);
    let buffers = &call.geometry.buffers;
    let mut i: usize = 0;
    while i < buffers.len()
        invariant
            0 <= i <= buffers@.len(),
            buffers@ == call@.buffers,
            all == vertex_commands(call@.buffers),
            commands@ == base + all.take(i as int),
        decreases buffers@.len() - i,
    {
        let range = buffers[i].resolve();
        commands.push(
            RenderCommand::SetVertexBuffer { slot: i as u32, buffer: buffers[i].buffer, range },
        );
        proof {
            assert(all.take(i + 1) =~= all.take(i as int).push(all[i as int]));
        }
        i += 1;
    }
    proof {
        assert(all.take(i as int) =~= all);
    }
}

/// Sets the immediate data of `call` when the manager still holds it.
fn emit_immediates<P, B>(
    call: &DrawCall<P, B>,
    immediate_manager: &ImmediateManager,
    commands: &mut Vec<RenderCommand>,
)
    ensures
        final(commands)@ == old(commands)@ + call@.immediate_commands(immediate_manager@.ranges),
{
    let ghost base = commands@;
    match call.shader_data.immediates {
        Some(immediate) => {
            match immediate_manager.range_of(immediate) {
                Some(data) => {
                    commands.push(RenderCommand::SetImmediates { offset: 0, immediate, data });
                },
                None => {},
            }
        },
        None => {},
    }
    proof {
        assert(commands@ =~= base + call@.immediate_commands(immediate_manager@.ranges));
    }
}

/// Emits the draw command of `call`, after the index-buffer bind if the
/// draw call is indexed.
fn emit_draw<P, B>(call: &DrawCall<P, B>, commands: &mut Vec<RenderCommand>)
    ensures
        final(commands)@ == old(commands)@ + call@.draw_commands(),
{
    let ghost base = commands@;
    match call.geometry.index_buffer {
        Some(index_buffer) => {
            let range = index_buffer.resolve();
            commands.push(
                RenderCommand::SetIndexBuffer {
                    buffer: index_buffer.buffer,
                    range,
                    format: call.geometry.index_format,
                },
            );
            commands.push(
                RenderCommand::DrawIndexed {
                    count: call.geometry.count,
                    instances: call.instance_count,
                },
            );
        },
        None => {
            commands.push(
                RenderCommand::Draw { count: call.geometry.count, instances: call.instance_count },
            );
        },
    }
    proof {
        assert(commands@ =~= base + call@.draw_commands());
    }
}

/// Appends the commands of one draw call to `commands` and brings the
/// bound pipeline and the bind-group cache up to date.
fn emit_draw_call<P, B>(
    call: &DrawCall<P, B>,
    current_pipeline: &mut Option<InstanceId>,
    cache: &mut BindGroupCache,
    pipeline_storage: &ResourcePool<P>,
    bind_group_storage: &ResourcePool<B>,
    immediate_manager: &ImmediateManager,
    commands: &mut Vec<RenderCommand>,
)
    requires
        pipeline_storage.wf(),
        bind_group_storage.wf(),
        call_live(call@, pipeline_storage@.values.dom(), bind_group_storage@.values.dom()),
    ensures
        final(commands)@ == old(commands)@ + call@.commands(
            batch_state(*old(current_pipeline), *old(cache)),
            immediate_manager@.ranges,
        ),
        batch_state(*final(current_pipeline), *final(cache)) == call@.state_after(
            batch_state(*old(current_pipeline), *old(cache)),
        ),
{
    emit_pipeline(call, current_pipeline, cache, pipeline_storage, commands);
    emit_bind_groups(call, cache, bind_group_storage, commands);
    emit_vertex_buffers(call, commands);
    emit_immediates(call, immediate_manager, commands);
    emit_draw(call, commands);
}


/// A stable sort moves draw calls around but neither adds nor drops one:
/// if every handle was live before, every handle is live after.
pub proof fn lemma_sorted_calls_live<P, B>(
    before: Seq<DrawCall<P, B>>,
    after: Seq<DrawCall<P, B>>,
    pipelines: Set<u32>,
    bind_groups: Set<u32>,
)
    requires
        stably_sorted(before, after),
        all_live(models(before), pipelines, bind_groups),
    ensures
        all_live(models(after), pipelines, bind_groups),
{
    let p = choose|p: Seq<int>| is_stable_sort(before, after, p);
    assert forall|i: int| 0 <= i < models(after).len() implies call_live(
        #[trigger] models(after)[i],
        pipelines,
        bind_groups,
    ) by {
        assert(after[i] == before[p[i]]);
        assert(models(before)[p[i]] == before[p[i]]@);
    }
}

/// Whether the pipeline and every bind group of every draw call is live
/// in its pool.
pub fn handles_live<P, B>(
    draw_calls: &Vec<DrawCall<P, B>>,
    pipeline_storage: &ResourcePool<P>,
    bind_group_storage: &ResourcePool<B>,
) -> (live: bool)
    requires
        pipeline_storage.wf(),
        bind_group_storage.wf(),
    ensures
        live == all_live(
            models(draw_calls@),
            pipeline_storage@.values.dom(),
            bind_group_storage@.values.dom(),
        ),
{
    let ghost ms = models(draw_calls@);
    let ghost ps = pipeline_storage@.values.dom();
    let ghost bs = bind_group_storage@.values.dom();
    let mut k: usize = 0;
    while k < draw_calls.len()
        invariant
            0 <= k <= draw_calls@.len(),
            ms == models(draw_calls@),
            ps == pipeline_storage@.values.dom(),
            bs == bind_group_storage@.values.dom(),
            pipeline_storage.wf(),
            bind_group_storage.wf(),
            forall|i: int| 0 <= i < k ==> call_live(#[trigger] ms[i], ps, bs),
        decreases draw_calls@.len() - k,
    {
        let call = &draw_calls[k];
        assert(ms[k as int] == call@);
        if !pipeline_storage.contains(call.render_pipeline_handle.id()) {
            assert(!call_live(ms[k as int], ps, bs));
            return false;
        }
        let groups = &call.shader_data.bind_groups;
        let mut j: usize = 0;
        while j < groups.len()
            invariant
                0 <= j <= groups@.len(),
                0 <= k < draw_calls@.len(),
                groups@ == call.shader_data.bind_groups@,
                ms == models(draw_calls@),
                ms[k as int] == call@,
                bs == bind_group_storage@.values.dom(),
                bind_group_storage.wf(),
                forall|i: int| 0 <= i < j ==> bs.contains(#[trigger] call@.bind_groups[i]),
            decreases groups@.len() - j,
        {
            if !bind_group_storage.contains(groups[j].id()) {
                assert(!bs.contains(call@.bind_groups[j as int]));
                assert(!call_live(ms[k as int], ps, bs));
                return false;
            }
            j += 1;
        }
        assert(call_live(ms[k as int], ps, bs));
        k += 1;
    }
    true
}

/// Sorts the draw calls stably by pipeline and bind groups and returns the
/// commands that replay them in that order: a pipeline bind where the
/// pipeline changes, a bind-group bind where a slot is not known to hold
/// the bind group, every vertex buffer, the immediate data if the manager
/// still holds it, and the draw command.
///
/// Every pipeline and bind group that a draw call names must be live.
pub fn execute_ordered_draw_calls<P, B>(
    draw_calls: &mut Vec<DrawCall<P, B>>,
    pipeline_storage: &ResourcePool<P>,
    bind_group_storage: &ResourcePool<B>,
    immediate_manager: &ImmediateManager,
) -> (commands: Vec<RenderCommand>)
    requires
        pipeline_storage.wf(),
        bind_group_storage.wf(),
        all_live(
            models(old(draw_calls)@),
            pipeline_storage@.values.dom(),
            bind_group_storage@.values.dom(),
        ),
    ensures
        stably_sorted(old(draw_calls)@, final(draw_calls)@),
        commands@ == emitted(
            models(final(draw_calls)@),
            immediate_manager@.ranges,
            final(draw_calls)@.len(),
        ),
        forall|i: int|
            0 <= i < commands@.len() ==> resolves(
                #[trigger] commands@[i],
                pipeline_storage@.values.dom(),
                bind_group_storage@.values.dom(),
                immediate_manager@.ranges,
            ),
{
    let ghost before = draw_calls@;
    sort_draw_calls(draw_calls);
    let ghost ms = models(draw_calls@);
    let ghost ranges = immediate_manager@.ranges;
    proof {
        lemma_sorted_calls_live(
            before,
            draw_calls@,
            pipeline_storage@.values.dom(),
            bind_group_storage@.values.dom(),
        );
    }
    let mut commands: Vec<RenderCommand> = Vec::new();
    let mut current_pipeline: Option<InstanceId> = None;
    let mut cache = cache_filled(None, BIND_GROUP_CACHE_SLOTS);
    proof {
        assert(batch_state(current_pipeline, cache).cache =~= initial_state().cache);
    }
    let mut k: usize = 0;
    while k < draw_calls.len()
        invariant
            0 <= k <= draw_calls@.len(),
            ms == models(draw_calls@),
            ranges == immediate_manager@.ranges,
            pipeline_storage.wf(),
            bind_group_storage.wf(),
            all_live(ms, pipeline_storage@.values.dom(), bind_group_storage@.values.dom()),
            batch_state(current_pipeline, cache) == state_at(ms, k as nat),
            commands@ == emitted(ms, ranges, k as nat),
        decreases draw_calls@.len() - k,
    {
        assert(ms[k as int] == draw_calls@[k as int]@);
        emit_draw_call(
            &draw_calls[k],
            &mut current_pipeline,
            &mut cache,
            pipeline_storage,
            bind_group_storage,
            immediate_manager,
            &mut commands,
        );
        k += 1;
    }
    proof {
        lemma_batch_resolves(
            ms,
            pipeline_storage@.values.dom(),
            bind_group_storage@.values.dom(),
            ranges,
            ms.len(),
        );
    }
    commands
}

/// How a render pass is executed.
#[derive(Debug, Clone, Copy, PartialEq, Eq, Structural)]
pub enum Executor {
    /// The draw calls are batched and replayed in batching order.
    Ordered,
    /// The caller records the pass itself.
    Custom,
}

/// What the caller has to do for a render pass.
#[derive(Debug)]
pub enum RenderPlan {
    /// Record these commands in this order.
    Commands(Vec<RenderCommand>),
    /// Hand the pass to the custom executor.
    Custom,
}

/// The draw calls of one render pass and how the pass is executed.
#[derive(Debug)]
pub struct RenderPass<P, B> {
    pub multiview_mask: Option<u32>,
    pub draw_calls: Vec<DrawCall<P, B>>,
    pub executor: Executor,
}

impl<P, B> RenderPass<P, B> {
    /// Plans the pass: with a custom executor the draw calls are left as
    /// they are and the pass is handed over; otherwise the draw calls are
    /// batched as [`execute_ordered_draw_calls`] describes.
    pub fn render(
        &mut self,
        pipeline_storage: &ResourcePool<P>,
        bind_group_storage: &ResourcePool<B>,
        immediate_manager: &ImmediateManager,
    ) -> (plan: RenderPlan)
        requires
            pipeline_storage.wf(),
            bind_group_storage.wf(),
            old(self).executor == Executor::Ordered ==> all_live(
                models(old(self).draw_calls@),
                pipeline_storage@.values.dom(),
                bind_group_storage@.values.dom(),
            ),
        ensures
            final(self).executor == old(self).executor,
            final(self).multiview_mask == old(self).multiview_mask,
            old(self).executor == Executor::Custom ==> plan is Custom && final(self).draw_calls
                == old(self).draw_calls,
            old(self).executor == Executor::Ordered ==> {
                &&& stably_sorted(old(self).draw_calls@, final(self).draw_calls@)
                &&& plan matches RenderPlan::Commands(commands)
                &&& commands@ == emitted(
                    models(final(self).draw_calls@),
                    immediate_manager@.ranges,
                    final(self).draw_calls@.len(),
                )
                &&& forall|i: int|
                    0 <= i < commands@.len() ==> resolves(
                        #[trigger] commands@[i],
                        pipeline_storage@.values.dom(),
                        bind_group_storage@.values.dom(),
                        immediate_manager@.ranges,
                    )
            },
    {
        match self.executor {
            Executor::Custom => RenderPlan::Custom,
            Executor::Ordered => RenderPlan::Commands(
                execute_ordered_draw_calls(
                    &mut self.draw_calls,
                    pipeline_storage,
                    bind_group_storage,
                    immediate_manager,
                ),
            ),
        }
    }
}

} // verus!
