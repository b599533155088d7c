use wgpurenderer::geometry::{
    compute_stride, index_data, narrow_indices, AttributeLayout, DrawRange, Geometry, IndexBuffer,
    IndexFormat, VertexBuffer, VertexStepMode,
};
use wgpurenderer::renderpass::{BufferRange, RenderCommand};
use wgpurenderer::shader::vertex_formats::{full, standard};
use wgpurenderer::shader::{AttributeFormat, VertexAttribute};

fn attribute(location: u32, format: AttributeFormat) -> VertexAttribute {
    VertexAttribute { location, format, name: "attribute" }
}

#[test]
fn stride_is_the_sum_of_the_attribute_sizes() {
    assert_eq!(compute_stride(&vec![]), 0);
    assert_eq!(compute_stride(&standard().attributes), 12 + 12 + 8);
    assert_eq!(compute_stride(&full().attributes), 12 + 12 + 8 + 16);
}

#[test]
fn vertex_buffer_layout_places_attributes_back_to_back() {
    let vb = VertexBuffer::new(3, 4800, 2, full().attributes, VertexStepMode::Instance);
    assert_eq!(vb.slot(), 2);
    assert_eq!(vb.buffer(), 3);
    assert_eq!(vb.stride(), 48);
    let layout = vb.layout();
    assert_eq!(layout.array_stride, 48);
    assert_eq!(layout.step_mode, VertexStepMode::Instance);
    assert_eq!(
        layout.attributes,
        vec![
            AttributeLayout { offset: 0, shader_location: 0, format: AttributeFormat::Float32x3 },
            AttributeLayout { offset: 12, shader_location: 1, format: AttributeFormat::Float32x3 },
            AttributeLayout { offset: 24, shader_location: 2, format: AttributeFormat::Float32x2 },
            AttributeLayout { offset: 32, shader_location: 3, format: AttributeFormat::Float32x4 },
        ]
    );
}

#[test]
fn empty_vertex_buffer_layout() {
    let vb = VertexBuffer::new(0, 0, 0, vec![], VertexStepMode::Vertex);
    let layout = vb.layout();
    assert_eq!(layout.array_stride, 0);
    assert_eq!(layout.step_mode, VertexStepMode::Vertex);
    assert!(layout.attributes.is_empty());
}

#[test]
fn new_geometry_has_one_instance_and_nothing_else() {
    let g = Geometry::new();
    assert_eq!(g.element_count(), 0);
    assert_eq!(g.instance_count(), 1);
    assert!(!g.is_indexed());
    assert_eq!(g.index_format(), IndexFormat::Uint32);
    assert!(g.bind().is_empty());
    assert!(g.vertex_buffer_layouts().is_empty());
    assert_eq!(g.draw(), RenderCommand::Draw { count: 0, instances: 1 });
    let d = Geometry::default();
    assert_eq!(d.element_count(), 0);
    assert_eq!(d.instance_count(), 1);
    assert!(!d.is_indexed());
}

#[test]
fn vertex_count_is_ignored_for_indexed_geometry() {
    let mut g = Geometry::new();
    g.set_vertex_count(24);
    assert_eq!(g.element_count(), 24);
    g.set_index_buffer(IndexBuffer { buffer: 9, size: 72 }, 36, IndexFormat::Uint16);
    assert!(g.is_indexed());
    assert_eq!(g.element_count(), 36);
    assert_eq!(g.index_format(), IndexFormat::Uint16);
    assert_eq!(g.index_buffer(), Some(IndexBuffer { buffer: 9, size: 72 }));
    g.set_vertex_count(24);
    assert_eq!(g.element_count(), 36);
    g.set_instance_count(7);
    assert_eq!(g.instance_count(), 7);
    assert_eq!(g.draw(), RenderCommand::DrawIndexed { count: 36, instances: 7 });
}

#[test]
fn bind_lists_vertex_buffers_then_the_index_buffer() {
    let mut g = Geometry::new();
    g.add_vertex_buffer(VertexBuffer::new(
        5,
        960,
        0,
        vec![attribute(0, AttributeFormat::Float32x3)],
        VertexStepMode::Vertex,
    ));
    g.add_vertex_buffer(VertexBuffer::new(
        6,
        64,
        3,
        vec![attribute(1, AttributeFormat::Float32x4)],
        VertexStepMode::Instance,
    ));
    let v0 = RenderCommand::SetVertexBuffer {
        slot: 0,
        buffer: 5,
        range: BufferRange { start: 0, end: 960 },
    };
    let v1 = RenderCommand::SetVertexBuffer {
        slot: 3,
        buffer: 6,
        range: BufferRange { start: 0, end: 64 },
    };
    assert_eq!(g.bind(), vec![v0, v1]);
    g.set_index_buffer(IndexBuffer { buffer: 7, size: 24 }, 6, IndexFormat::Uint32);
    assert_eq!(
        g.bind(),
        vec![
            v0,
            v1,
            RenderCommand::SetIndexBuffer {
                buffer: 7,
                range: BufferRange { start: 0, end: 24 },
                format: IndexFormat::Uint32,
            },
        ]
    );
    let layouts = g.vertex_buffer_layouts();
    assert_eq!(layouts.len(), 2);
    assert_eq!(layouts[0].array_stride, 12);
    assert_eq!(layouts[1].array_stride, 16);
    assert_eq!(layouts[1].step_mode, VertexStepMode::Instance);
}

#[test]
fn draw_range_is_indexed_when_the_geometry_is() {
    let mut g = Geometry::new();
    assert_eq!(
        g.draw_range(3, 9, 0, 2),
        DrawRange {
            indexed: false,
            first_element: 3,
            end_element: 9,
            first_instance: 0,
            end_instance: 2,
        }
    );
    g.set_index_buffer(IndexBuffer { buffer: 1, size: 12 }, 3, IndexFormat::Uint32);
    assert!(g.draw_range(0, 3, 1, 4).indexed);
}

#[test]
fn get_buffer_finds_the_first_buffer_of_a_slot() {
    let mut g = Geometry::new();
    g.add_vertex_buffer(VertexBuffer::new(10, 1, 0, vec![], VertexStepMode::Vertex));
    g.add_vertex_buffer(VertexBuffer::new(11, 1, 4, vec![], VertexStepMode::Vertex));
    g.add_vertex_buffer(VertexBuffer::new(12, 1, 4, vec![], VertexStepMode::Vertex));
    assert_eq!(g.get_buffer(0).map(|vb| vb.buffer()), Some(10));
    assert_eq!(g.get_buffer(4).map(|vb| vb.buffer()), Some(11));
    assert!(g.get_buffer(1).is_none());
    assert_eq!(g.position_of_slot(4), Some(1));
    assert_eq!(g.position_of_slot(9), None);
    assert_eq!(g.get_buffer_mut(4).map(|vb| vb.buffer()), Some(11));
    assert!(g.get_buffer_mut(2).is_none());
}

#[test]
fn from_interleaved_without_indices_counts_vertices() {
    let g = Geometry::from_interleaved(2, 768, 24, standard().attributes, None);
    assert!(!g.is_indexed());
    assert_eq!(g.element_count(), 24);
    assert_eq!(g.instance_count(), 1);
    let vb = g.get_buffer(0).unwrap();
    assert_eq!(vb.buffer(), 2);
    assert_eq!(vb.stride(), 32);
    assert_eq!(g.draw(), RenderCommand::Draw { count: 24, instances: 1 });
}

#[test]
fn from_interleaved_with_indices_counts_indices() {
    let g = Geometry::from_interleaved(
        2,
        768,
        24,
        standard().attributes,
        Some((IndexBuffer { buffer: 3, size: 72 }, 36, IndexFormat::Uint16)),
    );
    assert!(g.is_indexed());
    assert_eq!(g.element_count(), 36);
    assert_eq!(g.index_format(), IndexFormat::Uint16);
    assert_eq!(g.draw(), RenderCommand::DrawIndexed { count: 36, instances: 1 });
}

#[test]
fn narrow_indices_keeps_the_low_sixteen_bits() {
    assert_eq!(narrow_indices(&[0, 1, 65535, 65536, 65537, 0xdead_beef]), vec![0, 1, 65535, 0, 1, 0xbeef]);
    assert!(narrow_indices(&[]).is_empty());
}

#[test]
fn index_data_has_the_width_of_the_format() {
    let indices = [0u32, 1, 2, 0x0102_0304];
    let wide = index_data(&indices, IndexFormat::Uint32);
    assert_eq!(wide.len(), 16);
    assert_eq!(&wide[12..16], &0x0102_0304u32.to_ne_bytes());
    assert_eq!(&wide[4..8], &1u32.to_ne_bytes());
    let narrow = index_data(&indices, IndexFormat::Uint16);
    assert_eq!(narrow.len(), 8);
    assert_eq!(&narrow[6..8], &0x0304u16.to_ne_bytes());
    assert_eq!(&narrow[2..4], &1u16.to_ne_bytes());
    assert!(index_data(&[], IndexFormat::Uint16).is_empty());
}
