//! Identifiers of uniforms and of the data types they hold.

use crate::utils::type_id_of;
use vstd::prelude::*;
use vstd::std_specs::convert::FromSpecImpl;

verus! {

/// Identifier of one uniform.
#[derive(Debug, Clone, Copy, PartialEq, Eq, Structural, PartialOrd, Ord, Hash)]
pub struct UniformId(pub u32);

/// The identity of a Rust type, as the key of a table that hashes the key
/// by its own value.
#[derive(Debug, Clone, Copy, PartialEq, Eq, Hash)]
pub struct TypeIdKey(pub std::any::TypeId);

impl TypeIdKey {
    pub fn new<T: 'static>() -> Self {
        Self(type_id_of::<T>())
    }
}

impl From<std::any::TypeId> for TypeIdKey {
    fn from(id: std::any::TypeId) -> (r: Self) {
        Self(id)
    }
}

impl FromSpecImpl<std::any::TypeId> for TypeIdKey {
    open spec fn obeys_from_spec() -> bool {
        true
    }

    open spec fn from_spec(id: std::any::TypeId) -> Self {
        TypeIdKey(id)
    }
}

} // verus!
