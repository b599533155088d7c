//! Vertex formats that are used often.

use crate::shader::{AttributeFormat, VertexAttribute, VertexFormat};
use vstd::prelude::*;

verus! {

/// The attribute `position`: three floats at location 0.
pub open spec fn position_attribute() -> VertexAttribute {
    VertexAttribute { location: 0, format: AttributeFormat::Float32x3, name: "position" }
}

/// The attribute `normal`: three floats at location 1.
pub open spec fn normal_attribute() -> VertexAttribute {
    VertexAttribute { location: 1, format: AttributeFormat::Float32x3, name: "normal" }
}

/// The attribute `uv`: two floats at the given location.
pub open spec fn uv_attribute(location: u32) -> VertexAttribute {
    VertexAttribute { location, format: AttributeFormat::Float32x2, name: "uv" }
}

/// The attribute `tangent`: four floats at location 3.
pub open spec fn tangent_attribute() -> VertexAttribute {
    VertexAttribute { location: 3, format: AttributeFormat::Float32x4, name: "tangent" }
}

/// Position only.
pub fn position_only() -> (f: VertexFormat)
    ensures
        f.attributes@ == seq![position_attribute()],
{
    let mut attributes = Vec::new();
    attributes.push(
        VertexAttribute { location: 0, format: AttributeFormat::Float32x3, name: "position" },
    );
    VertexFormat { attributes }
}

/// Position and texture coordinates.
pub fn position_uv() -> (f: VertexFormat)
    ensures
        f.attributes@ == seq![position_attribute(), uv_attribute(1)],
{
    let mut attributes = Vec::new();
    attributes.push(
        VertexAttribute { location: 0, format: AttributeFormat::Float32x3, name: "position" },
    );
    attributes.push(VertexAttribute { location: 1, format: AttributeFormat::Float32x2, name: "uv" });
    VertexFormat { attributes }
}

/// Position and normal.
pub fn position_normal() -> (f: VertexFormat)
    ensures
        f.attributes@ == seq![position_attribute(), normal_attribute()],
{
    let mut attributes = Vec::new();
    attributes.push(
        VertexAttribute { location: 0, format: AttributeFormat::Float32x3, name: "position" },
    );
    attributes.push(
        VertexAttribute { location: 1, format: AttributeFormat::Float32x3, name: "normal" },
    );
    VertexFormat { attributes }
}

/// Position, normal and texture coordinates.
pub fn standard() -> (f: VertexFormat)
    ensures
        f.attributes@ == seq![position_attribute(), normal_attribute(), uv_attribute(2)],
{
    let mut attributes = Vec::new();
    attributes.push(
        VertexAttribute { location: 0, format: AttributeFormat::Float32x3, name: "position" },
    );
    attributes.push(
        VertexAttribute { location: 1, format: AttributeFormat::Float32x3, name: "normal" },
    );
    attributes.push(VertexAttribute { location: 2, format: AttributeFormat::Float32x2, name: "uv" });
    VertexFormat { attributes }
}

/// Position, normal, texture coordinates and tangent.
pub fn full() -> (f: VertexFormat)
    ensures
        f.attributes@ == seq![
            position_attribute(),
            normal_attribute(),
            uv_attribute(2),
            tangent_attribute(),
        ],
{
    let mut attributes = Vec::new();
    attributes.push(
        VertexAttribute { location: 0, format: AttributeFormat::Float32x3, name: "position" },
    );
    attributes.push(
        VertexAttribute { location: 1, format: AttributeFormat::Float32x3, name: "normal" },
    );
    attributes.push(VertexAttribute { location: 2, format: AttributeFormat::Float32x2, name: "uv" });
    attributes.push(
        VertexAttribute { location: 3, format: AttributeFormat::Float32x4, name: "tangent" },
    );
    VertexFormat { attributes }
}

} // verus!
