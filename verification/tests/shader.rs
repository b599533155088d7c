use std::path::PathBuf;
use wgpurenderer::shader::vertex_formats::{
    full, position_normal, position_only, position_uv, standard,
};
use wgpurenderer::shader::{
    join_modules, AttributeFormat, BindingType, Shader, ShaderLayout, ShaderStages, VertexFormat,
};
use wgpurenderer::template::{ShaderBuilder, ShaderSource};
use wgpurenderer::utils::TypeId;

fn summary(format: &VertexFormat) -> Vec<(u32, AttributeFormat, &'static str)> {
    format.attributes.iter().map(|a| (a.location, a.format, a.name)).collect()
}

#[test]
fn attribute_sizes_are_four_bytes_per_component() {
    assert_eq!(AttributeFormat::Float32.size(), 4);
    assert_eq!(AttributeFormat::Float32x2.size(), 8);
    assert_eq!(AttributeFormat::Float32x3.size(), 12);
    assert_eq!(AttributeFormat::Float32x4.size(), 16);
    assert_eq!(AttributeFormat::Uint32.size(), 4);
    assert_eq!(AttributeFormat::Uint32x2.size(), 8);
    assert_eq!(AttributeFormat::Uint32x3.size(), 12);
    assert_eq!(AttributeFormat::Uint32x4.size(), 16);
}

#[test]
fn predefined_vertex_formats() {
    let p = (0, AttributeFormat::Float32x3, "position");
    let n = (1, AttributeFormat::Float32x3, "normal");
    assert_eq!(summary(&position_only()), vec![p]);
    assert_eq!(summary(&position_uv()), vec![p, (1, AttributeFormat::Float32x2, "uv")]);
    assert_eq!(summary(&position_normal()), vec![p, n]);
    assert_eq!(summary(&standard()), vec![p, n, (2, AttributeFormat::Float32x2, "uv")]);
    assert_eq!(
        summary(&full()),
        vec![
            p,
            n,
            (2, AttributeFormat::Float32x2, "uv"),
            (3, AttributeFormat::Float32x4, "tangent"),
        ]
    );
}

#[test]
fn shader_stage_sets() {
    assert_eq!(ShaderStages::vertex(), ShaderStages { vertex: true, fragment: false, compute: false });
    assert_eq!(
        ShaderStages::fragment(),
        ShaderStages { vertex: false, fragment: true, compute: false }
    );
    assert_eq!(
        ShaderStages::vertex_fragment(),
        ShaderStages { vertex: true, fragment: true, compute: false }
    );
    assert_eq!(ShaderStages::compute(), ShaderStages { vertex: false, fragment: false, compute: true });
}

#[test]
fn new_layout_is_empty() {
    let layout = ShaderLayout::new();
    assert!(layout.vertex_format.attributes.is_empty());
    assert!(layout.bind_groups.is_empty());
    let layout = ShaderLayout::default();
    assert!(layout.vertex_format.attributes.is_empty());
    assert!(layout.bind_groups.is_empty());
}

#[test]
fn layout_builder_collects_attributes_and_bind_groups() {
    let layout = ShaderLayout::new()
        .vertex_attribute(0, AttributeFormat::Float32x3, "position")
        .vertex_attribute(1, AttributeFormat::Float32x2, "uv")
        .bind_group(0)
        .uniform(0, ShaderStages::vertex_fragment(), "camera")
        .storage(1, ShaderStages::vertex(), true, "objects")
        .build()
        .bind_group(1)
        .texture(0, "albedo")
        .texture_cube(1, "sky")
        .sampler(2, "albedo_sampler")
        .sampler_comparison(3, "shadow_sampler")
        .build();
    assert_eq!(
        summary(&layout.vertex_format),
        vec![(0, AttributeFormat::Float32x3, "position"), (1, AttributeFormat::Float32x2, "uv")]
    );
    assert_eq!(layout.bind_groups.len(), 2);
    let g0 = &layout.bind_groups[0];
    assert_eq!(g0.group, 0);
    assert_eq!(g0.bindings.len(), 2);
    assert_eq!(g0.bindings[0].binding, 0);
    assert_eq!(g0.bindings[0].ty, BindingType::UniformBuffer);
    assert_eq!(g0.bindings[0].visibility, ShaderStages::vertex_fragment());
    assert_eq!(g0.bindings[0].name, "camera");
    assert_eq!(g0.bindings[1].binding, 1);
    assert_eq!(g0.bindings[1].ty, BindingType::StorageBuffer { read_only: true });
    assert_eq!(g0.bindings[1].visibility, ShaderStages::vertex());
    assert_eq!(g0.bindings[1].name, "objects");
    let g1 = &layout.bind_groups[1];
    assert_eq!(g1.group, 1);
    let kinds: Vec<(u32, BindingType, &str)> =
        g1.bindings.iter().map(|b| (b.binding, b.ty, b.name)).collect();
    assert_eq!(
        kinds,
        vec![
            (0, BindingType::Texture2D, "albedo"),
            (1, BindingType::TextureCube, "sky"),
            (2, BindingType::Sampler, "albedo_sampler"),
            (3, BindingType::SamplerComparison, "shadow_sampler"),
        ]
    );
    assert!(g1.bindings.iter().all(|b| b.visibility == ShaderStages::fragment()));
}

#[test]
fn shader_from_wgsl_has_default_entry_points() {
    let shader = Shader::from_wgsl("fn vs_main() {}", ShaderLayout::new());
    assert_eq!(shader.vertex_entry(), "vs_main");
    assert_eq!(shader.fragment_entry(), "fs_main");
    assert_eq!(shader.inline_source(), Some(String::from("fn vs_main() {}")));
    assert!(shader.source_file().is_none());
    assert!(!shader.is_generated());
}

#[test]
fn shader_with_entry_points_keeps_the_source() {
    let shader =
        Shader::from_wgsl("code", ShaderLayout::new()).with_entry_points("vertex", "fragment");
    assert_eq!(shader.vertex_entry(), "vertex");
    assert_eq!(shader.fragment_entry(), "fragment");
    assert_eq!(shader.inline_source(), Some(String::from("code")));
}

#[test]
fn shader_from_modules_joins_the_pieces_by_line() {
    let modules = vec![String::from("struct A {}"), String::from("struct B {}"), String::from("fn f() {}")];
    let shader = Shader::from_modules(modules, ShaderLayout::new());
    assert_eq!(shader.inline_source(), Some(String::from("struct A {}\nstruct B {}\nfn f() {}")));
    assert_eq!(shader.vertex_entry(), "vs_main");
    assert_eq!(shader.fragment_entry(), "fs_main");
}

#[test]
fn join_modules_edge_cases() {
    assert_eq!(join_modules(&vec![]), "");
    assert_eq!(join_modules(&vec![String::from("one")]), "one");
    assert_eq!(join_modules(&vec![String::new(), String::new()]), "\n");
    assert_eq!(join_modules(&vec![String::from("a"), String::new(), String::from("b")]), "a\n\nb");
}

#[test]
fn shader_from_file_keeps_the_path() {
    let shader = Shader::from_file(PathBuf::from("shaders/shader.wgsl"), ShaderLayout::new());
    assert_eq!(shader.source_file(), Some(&PathBuf::from("shaders/shader.wgsl")));
    assert_eq!(shader.inline_source(), None);
    assert_eq!(shader.vertex_entry(), "vs_main");
    assert_eq!(shader.fragment_entry(), "fs_main");
}

#[test]
fn shader_source_piece_keeps_its_text() {
    let a = ShaderSource::from("static text");
    let b = ShaderSource::from(String::from("owned text"));
    assert_eq!(a.src(), "static text");
    assert_eq!(b.src(), "owned text");
    assert_eq!(a, ShaderSource::from(String::from("static text")));
}

#[test]
fn shader_builder_collects_in_order() {
    let builder = ShaderBuilder::new()
        .object_data(TypeId::new::<u32>(), 0)
        .uniform_data(TypeId::new::<u64>(), 1)
        .object_data(TypeId::new::<u8>(), 2)
        .binding_resource(17, 3)
        .source(ShaderSource::from("first"))
        .source(ShaderSource::from("second"))
        .entries("vs", "fs");
    assert_eq!(
        builder.object_bindings(),
        &vec![(TypeId::new::<u32>(), 0), (TypeId::new::<u8>(), 2)]
    );
    assert_eq!(builder.uniform_bindings(), &vec![(TypeId::new::<u64>(), 1)]);
    assert_eq!(builder.resource_bindings(), &vec![(17, 3)]);
    assert_eq!(builder.entry_points(), ("vs", "fs"));
    assert_eq!(builder.source_count(), 2);
    assert_eq!(builder.source_at(0).map(|s| s.src()), Some("first"));
    assert_eq!(builder.source_at(1).map(|s| s.src()), Some("second"));
    assert!(builder.source_at(2).is_none());
}

#[test]
fn new_shader_builder_is_empty() {
    let builder = ShaderBuilder::new();
    assert!(builder.object_bindings().is_empty());
    assert!(builder.uniform_bindings().is_empty());
    assert!(builder.resource_bindings().is_empty());
    assert_eq!(builder.entry_points(), ("", ""));
    assert_eq!(builder.source_count(), 0);
    assert!(builder.source_at(0).is_none());
}
