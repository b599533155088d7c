//! Shader descriptions: the source of a shader and the layout of the data
//! it expects.

use std::path::{Path, PathBuf};
use vstd::prelude::*;
use vstd::string::StringExecFns;

pub mod vertex_formats;

verus! {

/// `std::path::PathBuf`, declared as an opaque type.
#[verifier::external_type_specification]
#[verifier::external_body]
pub struct ExPathBuf(PathBuf);

/// `std::io::Error`, declared as an opaque type.
#[verifier::external_type_specification]
#[verifier::external_body]
pub struct ExIoError(std::io::Error);

/// Where the WGSL text of a shader comes from.
pub enum ShaderSource {
    /// The text itself.
    Wgsl(String),
    /// Pieces of text that are joined, one per line, when the shader is
    /// compiled.
    WgslModules(Vec<String>),
    /// A file that is read when the text is needed.
    File(PathBuf),
    /// Text produced on demand by a generator that the caller keeps.
    Generated,
}

/// Why the text of a shader could not be had.
#[derive(Debug)]
pub enum ShaderError {
    FileLoad(std::io::Error),
}

/// The scalar type and width of a vertex attribute.
#[derive(Clone, Copy, Debug, PartialEq, Eq, Structural)]
pub enum AttributeFormat {
    Float32,
    Float32x2,
    Float32x3,
    Float32x4,
    Uint32,
    Uint32x2,
    Uint32x3,
    Uint32x4,
}

impl AttributeFormat {
    /// The number of components of the attribute.
    pub open spec fn components(self) -> nat {
        match self {
            AttributeFormat::Float32 | AttributeFormat::Uint32 => 1,
            AttributeFormat::Float32x2 | AttributeFormat::Uint32x2 => 2,
            AttributeFormat::Float32x3 | AttributeFormat::Uint32x3 => 3,
            AttributeFormat::Float32x4 | AttributeFormat::Uint32x4 => 4,
        }
    }

    /// The size of the attribute in bytes: four bytes per component.
    pub open spec fn byte_size(self) -> nat {
        4 * self.components()
    }

    /// The size of the attribute in bytes.
    pub fn size(&self) -> (n: u64)
        ensures
            n == self.byte_size(),
            4 <= n <= 16,
    {
        gpu_format_size(*self)
    }
}

/// `wgpu::VertexFormat::size` of the GPU format of the same name: four
/// bytes for each of its components.
#[verifier::external_body]
fn gpu_format_size(format: AttributeFormat) -> (n: u64)
    ensures
        n == format.byte_size(),
{
    match format {
        AttributeFormat::Float32 => wgpu::VertexFormat::Float32,
        AttributeFormat::Float32x2 => wgpu::VertexFormat::Float32x2,
        AttributeFormat::Float32x3 => wgpu::VertexFormat::Float32x3,
        AttributeFormat::Float32x4 => wgpu::VertexFormat::Float32x4,
        AttributeFormat::Uint32 => wgpu::VertexFormat::Uint32,
        AttributeFormat::Uint32x2 => wgpu::VertexFormat::Uint32x2,
        AttributeFormat::Uint32x3 => wgpu::VertexFormat::Uint32x3,
        AttributeFormat::Uint32x4 => wgpu::VertexFormat::Uint32x4,
    }.size()
}

/// One input of the vertex stage.
#[derive(Clone, Copy, Debug)]
pub struct VertexAttribute {
    pub location: u32,
    pub format: AttributeFormat,
    pub name: &'static str,
}

/// The vertex attributes that a shader reads.
#[derive(Clone, Debug)]
pub struct VertexFormat {
    pub attributes: Vec<VertexAttribute>,
}

/// The shader stages that see a binding.
#[derive(Clone, Copy, Debug, PartialEq, Eq, Structural)]
pub struct ShaderStages {
    pub vertex: bool,
    pub fragment: bool,
    pub compute: bool,
}

impl ShaderStages {
    /// The vertex stage alone.
    pub fn vertex() -> (s: Self)
        ensures
            s == (ShaderStages { vertex: true, fragment: false, compute: false }),
    {
        Self { vertex: true, fragment: false, compute: false }
    }

    /// The fragment stage alone.
    pub fn fragment() -> (s: Self)
        ensures
            s == (ShaderStages { vertex: false, fragment: true, compute: false }),
    {
        Self { vertex: false, fragment: true, compute: false }
    }

    /// The vertex and the fragment stage.
    pub fn vertex_fragment() -> (s: Self)
        ensures
            s == (ShaderStages { vertex: true, fragment: true, compute: false }),
    {
        Self { vertex: true, fragment: true, compute: false }
    }

    /// The compute stage alone.
    pub fn compute() -> (s: Self)
        ensures
            s == (ShaderStages { vertex: false, fragment: false, compute: true }),
    {
        Self { vertex: false, fragment: false, compute: true }
    }
}

/// What kind of resource a binding is.
#[derive(Clone, Copy, Debug, PartialEq, Eq, Structural)]
pub enum BindingType {
    UniformBuffer,
    StorageBuffer { read_only: bool },
    Texture2D,
    TextureCube,
    Texture3D,
    Sampler,
    SamplerComparison,
}

/// One binding of a bind group.
#[derive(Clone, Copy, Debug)]
pub struct BindingDescriptor {
    pub binding: u32,
    pub ty: BindingType,
    pub visibility: ShaderStages,
    pub name: &'static str,
}

/// The bindings of one bind group.
#[derive(Clone, Debug)]
pub struct BindGroupLayoutDescriptor {
    pub group: u32,
    pub bindings: Vec<BindingDescriptor>,
}

/// Everything a shader expects: its vertex attributes and its bind groups.
#[derive(Clone, Debug)]
pub struct ShaderLayout {
    pub vertex_format: VertexFormat,
    pub bind_groups: Vec<BindGroupLayoutDescriptor>,
}


/// A shader: its source, its entry points and the layout it expects.
pub struct Shader {
    source: ShaderSource,
    vertex_entry: String,
    fragment_entry: String,
    pub layout: ShaderLayout,
}

/// The pieces `modules[0..n]` joined with a line break between neighbours.
pub open spec fn joined(modules: Seq<Seq<char>>, n: nat) -> Seq<char>
    decreases n,
{
    if n == 0 {
        Seq::empty()
    } else if n == 1 {
        modules[0]
    } else {
        joined(modules, (n - 1) as nat) + seq!['\n'] + modules[n - 1]
    }
}

/// The texts of a sequence of strings.
pub open spec fn texts(modules: Seq<String>) -> Seq<Seq<char>> {
    Seq::new(modules.len(), |i: int| modules[i]@)
}

/// Joins the pieces of a modular shader, one per line.
pub fn join_modules(modules: &Vec<String>) -> (text: String)
    ensures
        text@ == joined(texts(modules@), modules@.len()),
{
    let mut text = String::new();
    let mut i: usize = 0;
    while i < modules.len()
        invariant
            0 <= i <= modules@.len(),
            text@ == joined(texts(modules@), i as nat),
        decreases modules@.len() - i,
    {
        if i > 0 {
            proof {
                reveal_strlit("\n");
            }
            text.append("\n");
            assert("\n"@ =~= seq!['\n']);
        }
        text.append(modules[i].as_str());
        proof {
            assert(texts(modules@)[i as int] == modules@[i as int]@);
            if i == 0 {
                assert(text@ =~= modules@[0]@);
            }
        }
        i += 1;
    }
    text
}

impl Shader {
    /// The source of the shader.
    pub closed spec fn source(&self) -> ShaderSource {
        self.source
    }

    /// The layout that the shader expects.
    pub closed spec fn expected_layout(&self) -> ShaderLayout {
        self.layout
    }

    /// The name of the vertex entry point.
    pub closed spec fn vertex_entry_name(&self) -> Seq<char> {
        self.vertex_entry@
    }

    /// The name of the fragment entry point.
    pub closed spec fn fragment_entry_name(&self) -> Seq<char> {
        self.fragment_entry@
    }

    /// A shader from WGSL text, with the default entry points.
    pub fn from_wgsl(source: &str, layout: ShaderLayout) -> (shader: Self)
        ensures
            shader.source() matches ShaderSource::Wgsl(text) && text@ == source@,
            shader.vertex_entry_name() == "vs_main"@,
            shader.fragment_entry_name() == "fs_main"@,
            shader.expected_layout() == layout,
    {
        Self {
            source: ShaderSource::Wgsl(source.to_owned()),
            vertex_entry: "vs_main".to_owned(),
            fragment_entry: "fs_main".to_owned(),
            layout,
        }
    }

    /// A shader from pieces of WGSL text, with the default entry points.
    pub fn from_modules(modules: Vec<String>, layout: ShaderLayout) -> (shader: Self)
        ensures
            shader.source() == ShaderSource::WgslModules(modules),
            shader.vertex_entry_name() == "vs_main"@,
            shader.fragment_entry_name() == "fs_main"@,
            shader.expected_layout() == layout,
    {
        Self {
            source: ShaderSource::WgslModules(modules),
            vertex_entry: "vs_main".to_owned(),
            fragment_entry: "fs_main".to_owned(),
            layout,
        }
    }

    /// A shader whose text is read from a file, with the default entry
    /// points.
    pub fn from_file(path: PathBuf, layout: ShaderLayout) -> (shader: Self)
        ensures
            shader.source() == ShaderSource::File(path),
            shader.vertex_entry_name() == "vs_main"@,
            shader.fragment_entry_name() == "fs_main"@,
            shader.expected_layout() == layout,
    {
        Self {
            source: ShaderSource::File(path),
            vertex_entry: "vs_main".to_owned(),
            fragment_entry: "fs_main".to_owned(),
            layout,
        }
    }

    /// The same shader with other entry points.
    pub fn with_entry_points(self, vertex: &str, fragment: &str) -> (shader: Self)
        ensures
            shader.source() == self.source(),
            shader.expected_layout() == self.expected_layout(),
            shader.vertex_entry_name() == vertex@,
            shader.fragment_entry_name() == fragment@,
    {
        let mut shader = self;
        shader.vertex_entry = vertex.to_owned();
        shader.fragment_entry = fragment.to_owned();
        shader
    }

    /// The name of the vertex entry point.
    pub fn vertex_entry(&self) -> (name: &str)
        ensures
            name@ == self.vertex_entry_name(),
    {
        self.vertex_entry.as_str()
    }

    /// The name of the fragment entry point.
    pub fn fragment_entry(&self) -> (name: &str)
        ensures
            name@ == self.fragment_entry_name(),
    {
        self.fragment_entry.as_str()
    }

    /// The file that holds the text, for a shader that is read from one.
    pub fn source_file(&self) -> (path: Option<&PathBuf>)
        ensures
            path matches Some(p) ==> self.source() == ShaderSource::File(*p),
            path is None ==> !(self.source() is File),
    {
        match &self.source {
            ShaderSource::File(p) => Some(p),
            _ => None,
        }
    }

    /// Whether the text is produced by a generator that the caller keeps.
    pub fn is_generated(&self) -> (b: bool)
        ensures
            b == (self.source() is Generated),
    {
        match &self.source {
            ShaderSource::Generated => true,
            _ => false,
        }
    }

    /// The text of a shader that carries it: the text itself, or the
    /// pieces joined one per line. `None` for a shader whose text comes
    /// from a file or a generator.
    pub fn inline_source(&self) -> (text: Option<String>)
        ensures
            match self.source() {
                ShaderSource::Wgsl(s) => text matches Some(t) && t@ == s@,
                ShaderSource::WgslModules(modules) => text matches Some(t) && t@ == joined(
                    texts(modules@),
                    modules@.len(),
                ),
                ShaderSource::File(_) => text is None,
                ShaderSource::Generated => text is None,
            },
    {
        match &self.source {
            ShaderSource::Wgsl(s) => Some(s.clone()),
            ShaderSource::WgslModules(modules) => Some(join_modules(modules)),
            ShaderSource::File(_) => None,
            ShaderSource::Generated => None,
        }
    }
}

impl ShaderLayout {
    /// A layout without vertex attributes and bind groups.
    pub fn new() -> (layout: Self)
        ensures
            layout.vertex_format.attributes@ == Seq::<VertexAttribute>::empty(),
            layout.bind_groups@ == Seq::<BindGroupLayoutDescriptor>::empty(),
    {
        Self { vertex_format: VertexFormat { attributes: Vec::new() }, bind_groups: Vec::new() }
    }

    /// The layout with one more vertex attribute.
    pub fn vertex_attribute(self, location: u32, format: AttributeFormat, name: &'static str) -> (layout: Self)
        ensures
            layout.vertex_format.attributes@ == self.vertex_format.attributes@.push(
                VertexAttribute { location, format, name },
            ),
            layout.bind_groups == self.bind_groups,
    {
        let mut layout = self;
        layout.vertex_format.attributes.push(VertexAttribute { location, format, name });
        layout
    }

    /// Starts the description of bind group `group`.
    pub fn bind_group(self, group: u32) -> (builder: BindGroupBuilder)
        ensures
            builder.layout() == self,
            builder.group() == group,
            builder.bindings() == Seq::<BindingDescriptor>::empty(),
    {
        BindGroupBuilder::new(self, group)
    }
}

impl Default for ShaderLayout {
    fn default() -> (layout: Self)
        ensures
            layout.vertex_format.attributes@ == Seq::<VertexAttribute>::empty(),
            layout.bind_groups@ == Seq::<BindGroupLayoutDescriptor>::empty(),
    {
        Self::new()
    }
}

/// Collects the bindings of one bind group of a layout.
pub struct BindGroupBuilder {
    layout: ShaderLayout,
    group: u32,
    bindings: Vec<BindingDescriptor>,
}

impl BindGroupBuilder {
    /// The layout that the bind group is added to.
    pub closed spec fn layout(&self) -> ShaderLayout {
        self.layout
    }

    /// The number of the bind group.
    pub closed spec fn group(&self) -> u32 {
        self.group
    }

    /// The bindings collected so far.
    pub closed spec fn bindings(&self) -> Seq<BindingDescriptor> {
        self.bindings@
    }

    /// The builder with one more binding.
    pub open spec fn with(&self, other: &Self, descriptor: BindingDescriptor) -> bool {
        &&& other.layout() == self.layout()
        &&& other.group() == self.group()
        &&& other.bindings() == self.bindings().push(descriptor)
    }

    pub fn new(layout: ShaderLayout, group: u32) -> (builder: Self)
        ensures
            builder.layout() == layout,
            builder.group() == group,
            builder.bindings() == Seq::<BindingDescriptor>::empty(),
    {
        Self { layout, group, bindings: Vec::new() }
    }

    /// Adds a uniform buffer.
    pub fn uniform(self, binding: u32, visibility: ShaderStages, name: &'static str) -> (builder: Self)
        ensures
            self.with(
                &builder,
                BindingDescriptor { binding, ty: BindingType::UniformBuffer, visibility, name },
            ),
    {
        let mut builder = self;
        builder.bindings.push(
            BindingDescriptor { binding, ty: BindingType::UniformBuffer, visibility, name },
        );
        builder
    }

    /// Adds a storage buffer.
    pub fn storage(
        self,
        binding: u32,
        visibility: ShaderStages,
        read_only: bool,
        name: &'static str,
    ) -> (builder: Self)
        ensures
            self.with(
                &builder,
                BindingDescriptor {
                    binding,
                    ty: BindingType::StorageBuffer { read_only },
                    visibility,
                    name,
                },
            ),
    {
        let mut builder = self;
        builder.bindings.push(
            BindingDescriptor {
                binding,
                ty: BindingType::StorageBuffer { read_only },
                visibility,
                name,
            },
        );
        builder
    }

    /// Adds a binding of type `ty` that the fragment stage sees.
    fn fragment_binding(self, binding: u32, ty: BindingType, name: &'static str) -> (builder: Self)
        ensures
            self.with(
                &builder,
                BindingDescriptor {
                    binding,
                    ty,
                    visibility: ShaderStages { vertex: false, fragment: true, compute: false },
                    name,
                },
            ),
    {
        let mut builder = self;
        builder.bindings.push(
            BindingDescriptor { binding, ty, visibility: ShaderStages::fragment(), name },
        );
        builder
    }

    /// Adds a two-dimensional texture, seen by the fragment stage.
    pub fn texture(self, binding: u32, name: &'static str) -> (builder: Self)
        ensures
            self.with(
                &builder,
                BindingDescriptor {
                    binding,
                    ty: BindingType::Texture2D,
                    visibility: ShaderStages { vertex: false, fragment: true, compute: false },
                    name,
                },
            ),
    {
        self.fragment_binding(binding, BindingType::Texture2D, name)
    }

    /// Adds a cube texture, seen by the fragment stage.
    pub fn texture_cube(self, binding: u32, name: &'static str) -> (builder: Self)
        ensures
            self.with(
                &builder,
                BindingDescriptor {
                    binding,
                    ty: BindingType::TextureCube,
                    visibility: ShaderStages { vertex: false, fragment: true, compute: false },
                    name,
                },
            ),
    {
        self.fragment_binding(binding, BindingType::TextureCube, name)
    }

    /// Adds a sampler, seen by the fragment stage.
    pub fn sampler(self, binding: u32, name: &'static str) -> (builder: Self)
        ensures
            self.with(
                &builder,
                BindingDescriptor {
                    binding,
                    ty: BindingType::Sampler,
                    visibility: ShaderStages { vertex: false, fragment: true, compute: false },
                    name,
                },
            ),
    {
        self.fragment_binding(binding, BindingType::Sampler, name)
    }

    /// Adds a comparison sampler, seen by the fragment stage.
    pub fn sampler_comparison(self, binding: u32, name: &'static str) -> (builder: Self)
        ensures
            self.with(
                &builder,
                BindingDescriptor {
                    binding,
                    ty: BindingType::SamplerComparison,
                    visibility: ShaderStages { vertex: false, fragment: true, compute: false },
                    name,
                },
            ),
    {
        self.fragment_binding(binding, BindingType::SamplerComparison, name)
    }

    /// Adds the bind group to the layout and returns the layout.
    pub fn build(self) -> (layout: ShaderLayout)
        ensures
            layout.vertex_format == self.layout().vertex_format,
            layout.bind_groups@.len() == self.layout().bind_groups@.len() + 1,
            layout.bind_groups@.drop_last() == self.layout().bind_groups@,
            layout.bind_groups@.last().group == self.group(),
            layout.bind_groups@.last().bindings@ == self.bindings(),
    {
        let mut layout = self.layout;
        layout.bind_groups.push(
            BindGroupLayoutDescriptor { group: self.group, bindings: self.bindings },
        );
        proof {
            assert(layout.bind_groups@.drop_last() =~= self.layout().bind_groups@);
        }
        layout
    }
}

} // verus!
