//! Geometry descriptions: vertex buffers with their attribute layout, the
//! index buffer, and the commands that bind and draw a geometry.

use crate::renderpass::{BufferRange, RenderCommand};
use crate::shader::{AttributeFormat, VertexAttribute};
use vstd::prelude::*;

verus! {

/// How a vertex buffer advances: once per vertex or once per instance.
#[derive(Clone, Copy, Debug, PartialEq, Eq, Structural)]
pub enum VertexStepMode {
    Vertex,
    Instance,
}

/// The width of the indices in an index buffer.
#[derive(Clone, Copy, Debug, PartialEq, Eq, Structural)]
pub enum IndexFormat {
    Uint16,
    Uint32,
}

/// The offset of attribute `n` in an interleaved vertex: the sizes of the
/// attributes before it, added up.
pub open spec fn offset_at(attributes: Seq<VertexAttribute>, n: nat) -> nat
    decreases n,
{
    if n == 0 {
        0
    } else {
        offset_at(attributes, (n - 1) as nat) + attributes[n - 1].format.byte_size()
    }
}

/// The size of one interleaved vertex: the sizes of all attributes added up.
pub open spec fn stride_of(attributes: Seq<VertexAttribute>) -> nat {
    offset_at(attributes, attributes.len())
}

/// No attribute is larger than sixteen bytes, so offsets grow by at most
/// sixteen per attribute.
pub proof fn lemma_offset_bound(attributes: Seq<VertexAttribute>, n: nat)
    ensures
        offset_at(attributes, n) <= 16 * n,
    decreases n,
{
    if n > 0 {
        lemma_offset_bound(attributes, (n - 1) as nat);
    }
}

/// Where one attribute lies in a vertex.
#[derive(Clone, Copy, Debug, PartialEq, Eq, Structural)]
pub struct AttributeLayout {
    pub offset: u64,
    pub shader_location: u32,
    pub format: AttributeFormat,
}

/// The layouts of the attributes of an interleaved vertex: each at the
/// offset that the attributes before it take up.
pub open spec fn attribute_layouts(attributes: Seq<VertexAttribute>) -> Seq<AttributeLayout> {
    Seq::new(
        attributes.len(),
        |i: int|
            AttributeLayout {
                offset: offset_at(attributes, i as nat) as u64,
                shader_location: attributes[i].location,
                format: attributes[i].format,
            },
    )
}

/// How the vertices of one buffer are laid out.
#[derive(Debug)]
pub struct VertexBufferLayout {
    pub array_stride: u64,
    pub step_mode: VertexStepMode,
    pub attributes: Vec<AttributeLayout>,
}

/// The largest number of attributes whose sizes add up without overflow.
pub const MAX_ATTRIBUTES: usize = 0x0fff_ffff;

/// The size of one vertex with these attributes.
pub fn compute_stride(attributes: &Vec<VertexAttribute>) -> (stride: u64)
    requires
        attributes@.len() <= MAX_ATTRIBUTES,
    ensures
        stride == stride_of(attributes@),
{
    let mut stride: u64 = 0;
    let mut i: usize = 0;
    while i < attributes.len()
        invariant
            0 <= i <= attributes@.len(),
            attributes@.len() <= MAX_ATTRIBUTES,
            stride == offset_at(attributes@, i as nat),
            stride <= 16 * i,
        decreases attributes@.len() - i,
    {
        stride = stride + attributes[i].format.size();
        i += 1;
    }
    stride
}

/// One vertex buffer with the attributes that its vertices hold.
#[derive(Debug)]
pub struct VertexBuffer {
    buffer: u32,
    size: u64,
    slot: u32,
    attributes: Vec<VertexAttribute>,
    stride: u64,
    step_mode: VertexStepMode,
}

impl VertexBuffer {
    /// The key by which the caller finds the GPU buffer.
    pub closed spec fn spec_buffer(&self) -> u32 {
        self.buffer
    }

    /// The size of the GPU buffer in bytes.
    pub closed spec fn spec_size(&self) -> u64 {
        self.size
    }

    /// The slot at which the buffer is bound.
    pub closed spec fn spec_slot(&self) -> u32 {
        self.slot
    }

    /// The attributes of one vertex, in the order in which they lie.
    pub closed spec fn spec_attributes(&self) -> Seq<VertexAttribute> {
        self.attributes@
    }

    /// The size of one vertex.
    pub closed spec fn spec_stride(&self) -> u64 {
        self.stride
    }

    /// How the buffer advances.
    pub closed spec fn spec_step_mode(&self) -> VertexStepMode {
        self.step_mode
    }

    /// The stride is the size of the attributes.
    pub open spec fn wf(&self) -> bool {
        &&& self.spec_attributes().len() <= MAX_ATTRIBUTES
        &&& self.spec_stride() == stride_of(self.spec_attributes())
    }

    /// A description of the GPU buffer `buffer` of `size` bytes that is
    /// bound at `slot`; the stride is the size of the attributes.
    pub fn new(
        buffer: u32,
        size: u64,
        slot: u32,
        attributes: Vec<VertexAttribute>,
        step_mode: VertexStepMode,
    ) -> (vb: Self)
        requires
            attributes@.len() <= MAX_ATTRIBUTES,
        ensures
            vb.wf(),
            vb.spec_buffer() == buffer,
            vb.spec_size() == size,
            vb.spec_slot() == slot,
            vb.spec_attributes() == attributes@,
            vb.spec_step_mode() == step_mode,
    {
        let stride = compute_stride(&attributes);
        Self { buffer, size, slot, attributes, stride, step_mode }
    }

    pub fn slot(&self) -> (slot: u32)
        ensures
            slot == self.spec_slot(),
    {
        self.slot
    }

    /// The key by which the caller finds the GPU buffer.
    pub fn buffer(&self) -> (buffer: u32)
        ensures
            buffer == self.spec_buffer(),
    {
        self.buffer
    }

    /// The size of one vertex.
    pub fn stride(&self) -> (stride: u64)
        ensures
            stride == self.spec_stride(),
    {
        self.stride
    }

    /// The layout of the buffer: every attribute at the offset that the
    /// attributes before it take up.
    pub fn layout(&self) -> (layout: VertexBufferLayout)
        requires
            self.wf(),
        ensures
            layout.array_stride == self.spec_stride(),
            layout.step_mode == self.spec_step_mode(),
            layout.attributes@ == attribute_layouts(self.spec_attributes()),
    {
        let mut attributes: Vec<AttributeLayout> = Vec::new();
        let mut offset: u64 = 0;
        let mut i: usize = 0;
        while i < self.attributes.len()
            invariant
                0 <= i <= self.attributes@.len(),
                self.attributes@.len() <= MAX_ATTRIBUTES,
                offset == offset_at(self.attributes@, i as nat),
                offset <= 16 * i,
                attributes@.len() == i,
                forall|j: int|
                    0 <= j < i ==> #[trigger] attributes@[j] == (AttributeLayout {
                        offset: offset_at(self.attributes@, j as nat) as u64,
                        shader_location: self.attributes@[j].location,
                        format: self.attributes@[j].format,
                    }),
            decreases self.attributes@.len() - i,
        {
            let attribute = &self.attributes[i];
            attributes.push(
                AttributeLayout {
                    offset,
                    shader_location: attribute.location,
                    format: attribute.format,
                },
            );
            offset = offset + attribute.format.size();
            i += 1;
        }
        proof {
            assert(attributes@ =~= attribute_layouts(self.attributes@));
        }
        VertexBufferLayout { array_stride: self.stride, step_mode: self.step_mode, attributes }
    }
}


/// `bytemuck::cast_slice` from `u16` to bytes: two bytes per index, as they
/// lie in memory.
#[verifier::external_body]
fn u16_bytes(indices: &[u16]) -> (bytes: Vec<u8>)
    ensures
        bytes@.len() == 2 * indices@.len(),
{
    bytemuck::cast_slice::<u16, u8>(indices).to_vec()
}

/// `bytemuck::cast_slice` from `u32` to bytes: four bytes per index, as
/// they lie in memory.
#[verifier::external_body]
fn u32_bytes(indices: &[u32]) -> (bytes: Vec<u8>)
    ensures
        bytes@.len() == 4 * indices@.len(),
{
    bytemuck::cast_slice::<u32, u8>(indices).to_vec()
}

/// The indices cut down to sixteen bits each.
pub fn narrow_indices(indices: &[u32]) -> (narrowed: Vec<u16>)
    ensures
        narrowed@.len() == indices@.len(),
        forall|i: int| 0 <= i < indices@.len() ==> narrowed@[i] == indices@[i] as u16,
{
    let mut narrowed: Vec<u16> = Vec::new();
    let mut i: usize = 0;
    while i < indices.len()
        invariant
            0 <= i <= indices@.len(),
            narrowed@.len() == i,
            forall|j: int| 0 <= j < i ==> narrowed@[j] == indices@[j] as u16,
        decreases indices@.len() - i,
    {
        narrowed.push(#[verifier::truncate] (indices[i] as u16));
        i += 1;
    }
    narrowed
}

impl IndexFormat {
    /// The number of bytes of one index.
    pub open spec fn index_size(self) -> nat {
        match self {
            IndexFormat::Uint16 => 2,
            IndexFormat::Uint32 => 4,
        }
    }
}

/// The contents of an index buffer of the given format for these indices,
/// which are cut down to sixteen bits for the narrow format.
pub fn index_data(indices: &[u32], format: IndexFormat) -> (bytes: Vec<u8>)
    ensures
        bytes@.len() == format.index_size() * indices@.len(),
{
    match format {
        IndexFormat::Uint16 => {
            let narrowed = narrow_indices(indices);
            u16_bytes(narrowed.as_slice())
        },
        IndexFormat::Uint32 => u32_bytes(indices),
    }
}

/// The elements and instances of one draw, and whether it is indexed.
#[derive(Clone, Copy, Debug, PartialEq, Eq, Structural)]
pub struct DrawRange {
    pub indexed: bool,
    pub first_element: u32,
    pub end_element: u32,
    pub first_instance: u32,
    pub end_instance: u32,
}

/// The index buffer of a geometry: the key by which the caller finds the
/// GPU buffer, and its size in bytes.
#[derive(Clone, Copy, Debug, PartialEq, Eq, Structural)]
pub struct IndexBuffer {
    pub buffer: u32,
    pub size: u64,
}

/// A geometry of several vertex buffers and an optional index buffer.
#[derive(Debug)]
pub struct Geometry {
    vertex_buffers: Vec<VertexBuffer>,
    index_buffer: Option<IndexBuffer>,
    index_format: IndexFormat,
    /// The number of indices if there is an index buffer, else of vertices.
    element_count: u32,
    instance_count: u32,
}

/// The first position among the first `n` vertex buffers whose slot is
/// `slot`, if there is one.
pub open spec fn first_with_slot(buffers: Seq<VertexBuffer>, slot: u32, n: nat) -> Option<int>
    decreases n,
{
    if n == 0 {
        None
    } else {
        match first_with_slot(buffers, slot, (n - 1) as nat) {
            Some(i) => Some(i),
            None => if buffers[n - 1].spec_slot() == slot {
                Some(n - 1)
            } else {
                None
            },
        }
    }
}

/// Once a vertex buffer with the slot is found, looking further does not
/// change the answer.
pub proof fn lemma_first_with_slot_stable(buffers: Seq<VertexBuffer>, slot: u32, n: nat, m: nat)
    requires
        n <= m,
        first_with_slot(buffers, slot, n) is Some,
    ensures
        first_with_slot(buffers, slot, m) == first_with_slot(buffers, slot, n),
    decreases m,
{
    if n < m {
        lemma_first_with_slot_stable(buffers, slot, n, (m - 1) as nat);
    }
}

/// The command that binds the whole of a vertex buffer at its slot.
pub open spec fn vertex_bind(vb: VertexBuffer) -> RenderCommand {
    RenderCommand::SetVertexBuffer {
        slot: vb.spec_slot(),
        buffer: vb.spec_buffer(),
        range: BufferRange { start: 0, end: vb.spec_size() },
    }
}

impl Geometry {
    /// The vertex buffers in the order in which they were added.
    pub closed spec fn buffers(&self) -> Seq<VertexBuffer> {
        self.vertex_buffers@
    }

    /// The index buffer, if the geometry is indexed.
    pub closed spec fn index(&self) -> Option<IndexBuffer> {
        self.index_buffer
    }

    /// The format of the indices.
    pub closed spec fn format(&self) -> IndexFormat {
        self.index_format
    }

    /// The number of indices if there is an index buffer, else of vertices.
    pub closed spec fn elements(&self) -> u32 {
        self.element_count
    }

    /// The number of instances.
    pub closed spec fn instances(&self) -> u32 {
        self.instance_count
    }

    /// An empty geometry: no buffers, no elements, one instance.
    pub fn new() -> (g: Self)
        ensures
            g.buffers() == Seq::<VertexBuffer>::empty(),
            g.index() is None,
            g.format() == IndexFormat::Uint32,
            g.elements() == 0,
            g.instances() == 1,
    {
        Self {
            vertex_buffers: Vec::new(),
            index_buffer: None,
            index_format: IndexFormat::Uint32,
            element_count: 0,
            instance_count: 1,
        }
    }

    /// Adds a vertex buffer.
    pub fn add_vertex_buffer(&mut self, vertex_buffer: VertexBuffer)
        ensures
            final(self).buffers() == old(self).buffers().push(vertex_buffer),
            final(self).index() == old(self).index(),
            final(self).format() == old(self).format(),
            final(self).elements() == old(self).elements(),
            final(self).instances() == old(self).instances(),
    {
        self.vertex_buffers.push(vertex_buffer);
    }

    /// Sets the index buffer; the geometry then draws `count` indices.
    pub fn set_index_buffer(&mut self, index_buffer: IndexBuffer, count: u32, format: IndexFormat)
        ensures
            final(self).buffers() == old(self).buffers(),
            final(self).index() == Some(index_buffer),
            final(self).format() == format,
            final(self).elements() == count,
            final(self).instances() == old(self).instances(),
    {
        self.index_buffer = Some(index_buffer);
        self.index_format = format;
        self.element_count = count;
    }

    /// Sets the number of vertices of a geometry without index buffer; an
    /// indexed geometry keeps its number of indices.
    pub fn set_vertex_count(&mut self, count: u32)
        ensures
            final(self).buffers() == old(self).buffers(),
            final(self).index() == old(self).index(),
            final(self).format() == old(self).format(),
            final(self).instances() == old(self).instances(),
            final(self).elements() == if old(self).index() is None {
                count
            } else {
                old(self).elements()
            },
    {
        if self.index_buffer.is_none() {
            self.element_count = count;
        }
    }

    /// Sets the number of instances.
    pub fn set_instance_count(&mut self, count: u32)
        ensures
            final(self).buffers() == old(self).buffers(),
            final(self).index() == old(self).index(),
            final(self).format() == old(self).format(),
            final(self).elements() == old(self).elements(),
            final(self).instances() == count,
    {
        self.instance_count = count;
    }

    /// The number of indices if there is an index buffer, else of vertices.
    pub fn element_count(&self) -> (n: u32)
        ensures
            n == self.elements(),
    {
        self.element_count
    }

    /// The number of instances.
    pub fn instance_count(&self) -> (n: u32)
        ensures
            n == self.instances(),
    {
        self.instance_count
    }

    /// Whether there is an index buffer.
    pub fn is_indexed(&self) -> (b: bool)
        ensures
            b == (self.index() is Some),
    {
        self.index_buffer.is_some()
    }

    /// The format of the indices.
    pub fn index_format(&self) -> (format: IndexFormat)
        ensures
            format == self.format(),
    {
        self.index_format
    }

    /// The index buffer, if there is one.
    pub fn index_buffer(&self) -> (index: Option<IndexBuffer>)
        ensures
            index == self.index(),
    {
        self.index_buffer
    }

    /// The layouts of all vertex buffers, in the order of the buffers.
    pub fn vertex_buffer_layouts(&self) -> (layouts: Vec<VertexBufferLayout>)
        requires
            forall|i: int| 0 <= i < self.buffers().len() ==> (#[trigger] self.buffers()[i]).wf(),
        ensures
            layouts@.len() == self.buffers().len(),
            forall|i: int|
                0 <= i < layouts@.len() ==> {
                    &&& (#[trigger] layouts@[i]).array_stride == self.buffers()[i].spec_stride()
                    &&& layouts@[i].step_mode == self.buffers()[i].spec_step_mode()
                    &&& layouts@[i].attributes@ == attribute_layouts(
                        self.buffers()[i].spec_attributes(),
                    )
                },
    {
        let mut layouts: Vec<VertexBufferLayout> = Vec::new();
        let mut i: usize = 0;
        while i < self.vertex_buffers.len()
            invariant
                0 <= i <= self.vertex_buffers@.len(),
                forall|k: int|
                    0 <= k < self.buffers().len() ==> (#[trigger] self.buffers()[k]).wf(),
                layouts@.len() == i,
                forall|k: int|
                    0 <= k < i ==> {
                        &&& (#[trigger] layouts@[k]).array_stride
                            == self.buffers()[k].spec_stride()
                        &&& layouts@[k].step_mode == self.buffers()[k].spec_step_mode()
                        &&& layouts@[k].attributes@ == attribute_layouts(
                            self.buffers()[k].spec_attributes(),
                        )
                    },
            decreases self.vertex_buffers@.len() - i,
        {
            assert(self.buffers()[i as int].wf());
            layouts.push(self.vertex_buffers[i].layout());
            i += 1;
        }
        layouts
    }

    /// The commands that bind the geometry: every vertex buffer whole at
    /// its slot, then the index buffer whole if there is one.
    pub fn bind(&self) -> (commands: Vec<RenderCommand>)
        ensures
            commands@ == Seq::new(self.buffers().len(), |i: int| vertex_bind(self.buffers()[i]))
                + match self.index() {
                Some(index) => seq![
                    RenderCommand::SetIndexBuffer {
                        buffer: index.buffer,
                        range: BufferRange { start: 0, end: index.size },
                        format: self.format(),
                    },
                ],
                None => Seq::<RenderCommand>::empty(),
            },
    {
        let ghost binds = Seq::new(self.buffers().len(), |i: int| vertex_bind(self.buffers()[i]));
        let mut commands: Vec<RenderCommand> = Vec::new();
        let mut i: usize = 0;
        while i < self.vertex_buffers.len()
            invariant
                0 <= i <= self.vertex_buffers@.len(),
                binds == Seq::new(self.buffers().len(), |i: int| vertex_bind(self.buffers()[i])),
                commands@ == binds.take(i as int),
            decreases self.vertex_buffers@.len() - i,
        {
            let vb = &self.vertex_buffers[i];
            commands.push(
                RenderCommand::SetVertexBuffer {
                    slot: vb.slot,
                    buffer: vb.buffer,
                    range: BufferRange { start: 0, end: vb.size },
                },
            );
            proof {
                assert(binds.take(i + 1) =~= binds.take(i as int).push(binds[i as int]));
            }
            i += 1;
        }
        proof {
            assert(binds.take(i as int) =~= binds);
        }
        match self.index_buffer {
            Some(index) => {
                commands.push(
                    RenderCommand::SetIndexBuffer {
                        buffer: index.buffer,
                        range: BufferRange { start: 0, end: index.size },
                        format: self.index_format,
                    },
                );
            },
            None => {
                assert(commands@ =~= binds + Seq::<RenderCommand>::empty());
            },
        }
        commands
    }

    /// The command that draws all elements for all instances: indexed
    /// exactly when there is an index buffer.
    pub fn draw(&self) -> (command: RenderCommand)
        ensures
            command == if self.index() is Some {
                RenderCommand::DrawIndexed { count: self.elements(), instances: self.instances() }
            } else {
                RenderCommand::Draw { count: self.elements(), instances: self.instances() }
            },
    {
        if self.index_buffer.is_some() {
            RenderCommand::DrawIndexed {
                count: self.element_count,
                instances: self.instance_count,
            }
        } else {
            RenderCommand::Draw { count: self.element_count, instances: self.instance_count }
        }
    }

    /// A draw of the given elements and instances: indexed exactly when
    /// there is an index buffer.
    pub fn draw_range(
        &self,
        first_element: u32,
        end_element: u32,
        first_instance: u32,
        end_instance: u32,
    ) -> (range: DrawRange)
        ensures
            range == (DrawRange {
                indexed: self.index() is Some,
                first_element,
                end_element,
                first_instance,
                end_instance,
            }),
    {
        DrawRange {
            indexed: self.index_buffer.is_some(),
            first_element,
            end_element,
            first_instance,
            end_instance,
        }
    }

    /// The position of the first vertex buffer that is bound at `slot`.
    pub fn position_of_slot(&self, slot: u32) -> (r: Option<usize>)
        ensures
            r matches Some(i) ==> first_with_slot(self.buffers(), slot, self.buffers().len())
                == Some(i as int) && i < self.buffers().len() && self.buffers()[i as int].spec_slot()
                == slot,
            r is None ==> first_with_slot(self.buffers(), slot, self.buffers().len()) is None,
            r is None ==> forall|i: int|
                0 <= i < self.buffers().len() ==> (#[trigger] self.buffers()[i]).spec_slot()
                    != slot,
    {
        let mut i: usize = 0;
        while i < self.vertex_buffers.len()
            invariant
                0 <= i <= self.vertex_buffers@.len(),
                first_with_slot(self.buffers(), slot, i as nat) is None,
                forall|k: int| 0 <= k < i ==> (#[trigger] self.buffers()[k]).spec_slot() != slot,
            decreases self.vertex_buffers@.len() - i,
        {
            if self.vertex_buffers[i].slot == slot {
                proof {
                    assert(first_with_slot(self.buffers(), slot, (i + 1) as nat) == Some(
                        i as int,
                    ));
                    lemma_first_with_slot_stable(
                        self.buffers(),
                        slot,
                        (i + 1) as nat,
                        self.buffers().len(),
                    );
                }
                return Some(i);
            }
            i += 1;
        }
        None
    }

    /// The first vertex buffer that is bound at `slot`.
    pub fn get_buffer(&self, slot: u32) -> (r: Option<&VertexBuffer>)
        ensures
            match first_with_slot(self.buffers(), slot, self.buffers().len()) {
                Some(i) => r matches Some(vb) && *vb == self.buffers()[i],
                None => r is None,
            },
    {
        match self.position_of_slot(slot) {
            Some(i) => Some(&self.vertex_buffers[i]),
            None => None,
        }
    }

    /// Mutable access to the first vertex buffer that is bound at `slot`.
    pub fn get_buffer_mut(&mut self, slot: u32) -> (r: Option<&mut VertexBuffer>)
        ensures
            match first_with_slot(old(self).buffers(), slot, old(self).buffers().len()) {
                Some(i) => {
                    &&& r matches Some(vb)
                    &&& *vb == old(self).buffers()[i]
                    &&& final(self).buffers() == old(self).buffers().update(i, *final(vb))
                },
                None => r is None && final(self).buffers() == old(self).buffers(),
            },
            final(self).index() == old(self).index(),
            final(self).format() == old(self).format(),
            final(self).elements() == old(self).elements(),
            final(self).instances() == old(self).instances(),
    {
        match self.position_of_slot(slot) {
            Some(i) => Some(&mut self.vertex_buffers[i]),
            None => None,
        }
    }

    /// A geometry of one interleaved vertex buffer at slot zero, with
    /// `indices` as its index buffer and index count where given, and
    /// `vertex_count` vertices otherwise.
    pub fn from_interleaved(
        vertex_buffer: u32,
        vertex_buffer_size: u64,
        vertex_count: u32,
        attributes: Vec<VertexAttribute>,
        indices: Option<(IndexBuffer, u32, IndexFormat)>,
    ) -> (g: Self)
        requires
            attributes@.len() <= MAX_ATTRIBUTES,
        ensures
            g.buffers().len() == 1,
            g.buffers()[0].wf(),
            g.buffers()[0].spec_buffer() == vertex_buffer,
            g.buffers()[0].spec_size() == vertex_buffer_size,
            g.buffers()[0].spec_slot() == 0,
            g.buffers()[0].spec_attributes() == attributes@,
            g.buffers()[0].spec_step_mode() == VertexStepMode::Vertex,
            g.instances() == 1,
            match indices {
                Some((index, count, format)) => g.index() == Some(index) && g.elements() == count
                    && g.format() == format,
                None => g.index() is None && g.elements() == vertex_count && g.format()
                    == IndexFormat::Uint32,
            },
    {
        let mut geometry = Self::new();
        geometry.add_vertex_buffer(
            VertexBuffer::new(
                vertex_buffer,
                vertex_buffer_size,
                0,
                attributes,
                VertexStepMode::Vertex,
            ),
        );
        match indices {
            Some((index, count, format)) => {
                geometry.set_index_buffer(index, count, format);
            },
            None => {
                geometry.set_vertex_count(vertex_count);
            },
        }
        geometry
    }
}

impl Default for Geometry {
    fn default() -> (g: Self)
        ensures
            g.buffers() == Seq::<VertexBuffer>::empty(),
            g.index() is None,
            g.format() == IndexFormat::Uint32,
            g.elements() == 0,
            g.instances() == 1,
    {
        Self::new()
    }
}

} // verus!
