//! Building a shader from pieces of source and the data it binds.

use crate::utils::TypeId;
use smallvec::SmallVec;
use vstd::prelude::*;
use vstd::std_specs::convert::FromSpecImpl;

verus! {

/// One piece of shader source.
#[derive(Debug, Clone, PartialEq, Eq)]
pub struct ShaderSource(String);

impl View for ShaderSource {
    type V = Seq<char>;

    closed spec fn view(&self) -> Seq<char> {
        self.0@
    }
}

impl ShaderSource {
    /// The text of the piece.
    pub fn src(&self) -> (text: &str)
        ensures
            text@ == self@,
    {
        self.0.as_str()
    }
}

impl From<&'static str> for ShaderSource {
    fn from(value: &'static str) -> (source: Self)
        ensures
            source@ == value@,
    {
        Self(value.to_owned())
    }
}

impl FromSpecImpl<&'static str> for ShaderSource {
    open spec fn obeys_from_spec() -> bool {
        false
    }

    open spec fn from_spec(value: &'static str) -> Self {
        arbitrary()
    }
}

impl From<String> for ShaderSource {
    fn from(value: String) -> (source: Self)
        ensures
            source@ == value@,
    {
        Self(value)
    }
}

impl FromSpecImpl<String> for ShaderSource {
    open spec fn obeys_from_spec() -> bool {
        false
    }

    open spec fn from_spec(value: String) -> Self {
        arbitrary()
    }
}

/// The pieces of source of a shader, kept in a `smallvec::SmallVec` that
/// needs no allocation for a single piece. The container is opaque to the
/// verifier; its contents are named by [`source_texts`].
#[verifier::external_body]
pub struct SourceList {
    items: SmallVec<[ShaderSource; 1]>,
}

/// The texts of the pieces in a source list, in order.
pub uninterp spec fn source_texts(list: SourceList) -> Seq<Seq<char>>;

/// `SmallVec::new`: a list without pieces.
#[verifier::external_body]
fn sources_new() -> (list: SourceList)
    ensures
        source_texts(list) == Seq::<Seq<char>>::empty(),
{
    SourceList { items: SmallVec::new() }
}

/// `SmallVec::push`: the piece is appended.
#[verifier::external_body]
fn sources_push(list: &mut SourceList, source: ShaderSource)
    ensures
        source_texts(*final(list)) == source_texts(*old(list)).push(source@),
{
    list.items.push(source);
}

/// `SmallVec::len`: the number of pieces.
#[verifier::external_body]
fn sources_len(list: &SourceList) -> (n: usize)
    ensures
        n == source_texts(*list).len(),
{
    list.items.len()
}

/// Indexing a `SmallVec`: the piece at position `i`, which must exist.
#[verifier::external_body]
fn sources_get(list: &SourceList, i: usize) -> (source: &ShaderSource)
    requires
        i < source_texts(*list).len(),
    ensures
        source@ == source_texts(*list)[i as int],
{
    &list.items[i]
}

/// Collects what a shader is built from: the data types it reads per
/// object and per uniform, each with its binding, the bound resources, the
/// entry points and the pieces of source.
pub struct ShaderBuilder {
    object_data: Vec<(TypeId, u32)>,
    uniform_data: Vec<(TypeId, u32)>,
    binding_resources: Vec<(u32, u32)>,
    vertex_entry: String,
    fragment_entry: String,
    source: SourceList,
}

impl ShaderBuilder {
    /// The per-object data types with their bindings.
    pub closed spec fn spec_object_data(&self) -> Seq<(TypeId, u32)> {
        self.object_data@
    }

    /// The uniform data types with their bindings.
    pub closed spec fn spec_uniform_data(&self) -> Seq<(TypeId, u32)> {
        self.uniform_data@
    }

    /// The bound resources, by the keys of the caller, with their bindings.
    pub closed spec fn spec_binding_resources(&self) -> Seq<(u32, u32)> {
        self.binding_resources@
    }

    /// The name of the vertex entry point.
    pub closed spec fn spec_vertex_entry(&self) -> Seq<char> {
        self.vertex_entry@
    }

    /// The name of the fragment entry point.
    pub closed spec fn spec_fragment_entry(&self) -> Seq<char> {
        self.fragment_entry@
    }

    /// The texts of the pieces of source.
    pub closed spec fn spec_sources(&self) -> Seq<Seq<char>> {
        source_texts(self.source)
    }

    /// Whether `other` has what `self` has, but for the entry points and
    /// the sequences that the caller states.
    pub open spec fn same_entries(&self, other: &Self) -> bool {
        &&& other.spec_vertex_entry() == self.spec_vertex_entry()
        &&& other.spec_fragment_entry() == self.spec_fragment_entry()
    }

    /// A builder that holds nothing, with empty entry points.
    pub fn new() -> (b: Self)
        ensures
            b.spec_object_data() == Seq::<(TypeId, u32)>::empty(),
            b.spec_uniform_data() == Seq::<(TypeId, u32)>::empty(),
            b.spec_binding_resources() == Seq::<(u32, u32)>::empty(),
            b.spec_vertex_entry() == Seq::<char>::empty(),
            b.spec_fragment_entry() == Seq::<char>::empty(),
            b.spec_sources() == Seq::<Seq<char>>::empty(),
    {
        Self {
            object_data: Vec::new(),
            uniform_data: Vec::new(),
            binding_resources: Vec::new(),
            vertex_entry: String::new(),
            fragment_entry: String::new(),
            source: sources_new(),
        }
    }

    /// Adds a per-object data type at `binding`.
    pub fn object_data(self, type_id: TypeId, binding: u32) -> (b: Self)
        ensures
            b.spec_object_data() == self.spec_object_data().push((type_id, binding)),
            b.spec_uniform_data() == self.spec_uniform_data(),
            b.spec_binding_resources() == self.spec_binding_resources(),
            b.spec_sources() == self.spec_sources(),
            self.same_entries(&b),
    {
        let mut b = self;
        b.object_data.push((type_id, binding));
        b
    }

    /// Adds a uniform data type at `binding`.
    pub fn uniform_data(self, type_id: TypeId, binding: u32) -> (b: Self)
        ensures
            b.spec_uniform_data() == self.spec_uniform_data().push((type_id, binding)),
            b.spec_object_data() == self.spec_object_data(),
            b.spec_binding_resources() == self.spec_binding_resources(),
            b.spec_sources() == self.spec_sources(),
            self.same_entries(&b),
    {
        let mut b = self;
        b.uniform_data.push((type_id, binding));
        b
    }

    /// Adds the resource that the caller knows as `resource` at `binding`.
    pub fn binding_resource(self, resource: u32, binding: u32) -> (b: Self)
        ensures
            b.spec_binding_resources() == self.spec_binding_resources().push((resource, binding)),
            b.spec_object_data() == self.spec_object_data(),
            b.spec_uniform_data() == self.spec_uniform_data(),
            b.spec_sources() == self.spec_sources(),
            self.same_entries(&b),
    {
        let mut b = self;
        b.binding_resources.push((resource, binding));
        b
    }

    /// Adds a piece of source.
    pub fn source(self, source: ShaderSource) -> (b: Self)
        ensures
            b.spec_sources() == self.spec_sources().push(source@),
            b.spec_object_data() == self.spec_object_data(),
            b.spec_uniform_data() == self.spec_uniform_data(),
            b.spec_binding_resources() == self.spec_binding_resources(),
            self.same_entries(&b),
    {
        let mut b = self;
        sources_push(&mut b.source, source);
        b
    }

    /// Sets the entry points.
    pub fn entries(self, vertex_entry: &str, fragment_entry: &str) -> (b: Self)
        ensures
            b.spec_vertex_entry() == vertex_entry@,
            b.spec_fragment_entry() == fragment_entry@,
            b.spec_object_data() == self.spec_object_data(),
            b.spec_uniform_data() == self.spec_uniform_data(),
            b.spec_binding_resources() == self.spec_binding_resources(),
            b.spec_sources() == self.spec_sources(),
    {
        let mut b = self;
        b.vertex_entry = vertex_entry.to_owned();
        b.fragment_entry = fragment_entry.to_owned();
        b
    }

    /// The number of pieces of source.
    pub fn source_count(&self) -> (n: usize)
        ensures
            n == self.spec_sources().len(),
    {
        sources_len(&self.source)
    }

    /// The piece of source at position `i`.
    pub fn source_at(&self, i: usize) -> (source: Option<&ShaderSource>)
        ensures
            source.is_some() <==> i < self.spec_sources().len(),
            source matches Some(s) ==> s@ == self.spec_sources()[i as int],
    {
        if i < sources_len(&self.source) {
            Some(sources_get(&self.source, i))
        } else {
            None
        }
    }

    /// The entry points: vertex, then fragment.
    pub fn entry_points(&self) -> (names: (&str, &str))
        ensures
            names.0@ == self.spec_vertex_entry(),
            names.1@ == self.spec_fragment_entry(),
    {
        (self.vertex_entry.as_str(), self.fragment_entry.as_str())
    }

    /// The per-object data types with their bindings.
    pub fn object_bindings(&self) -> (bindings: &Vec<(TypeId, u32)>)
        ensures
            bindings@ == self.spec_object_data(),
    {
        &self.object_data
    }

    /// The uniform data types with their bindings.
    pub fn uniform_bindings(&self) -> (bindings: &Vec<(TypeId, u32)>)
        ensures
            bindings@ == self.spec_uniform_data(),
    {
        &self.uniform_data
    }

    /// The bound resources with their bindings.
    pub fn resource_bindings(&self) -> (bindings: &Vec<(u32, u32)>)
        ensures
            bindings@ == self.spec_binding_resources(),
    {
        &self.binding_resources
    }
}

} // verus!
