//! Type-erased values and type identities.
use vstd::prelude::*;
use std::any::{Any, TypeId};
use std::sync::Arc;

verus! {

/// `std::any::TypeId`: an opaque identifier of a `'static` type.
#[verifier::external_type_specification]
#[verifier::external_body]
pub struct ExTypeId(TypeId);

/// A value of any `'static` type behind a shared, type-erased pointer
/// (`Arc<dyn Any + Send + Sync>`). Verus does not accept `dyn Any` in verified code (the
/// trait `Any` cannot be declared to it), so this holder is opaque: its contents are only
/// reached through `payload_of`, `payload_get` and `payload_share`.
#[verifier::external_body]
pub struct Payload {
    value: Arc<dyn Any + Send + Sync>,
}

/// `TypeId::of::<T>()`: the identifier of the type `T`. Nothing is stated of it: the
/// identifier of a type cannot be named in a contract.
#[verifier::external_body]
pub(crate) fn type_id_of<T: 'static>() -> (r: TypeId) {
    TypeId::of::<T>()
}

/// `TypeId`'s `==`: identifiers compare equal exactly when they are the same identifier.
#[verifier::external_body]
pub(crate) fn same_type_id(a: &TypeId, b: &TypeId) -> (r: bool)
    ensures
        r == (*a == *b),
{
    *a == *b
}

/// `Arc::new(value)`, erased to `Arc<dyn Any + Send + Sync>`. Nothing is stated of the
/// holder: its contents are opaque.
#[verifier::external_body]
pub(crate) fn payload_of<T: Send + Sync + 'static>(value: T) -> (r: Payload) {
    Payload { value: Arc::new(value) }
}

/// `<dyn Any>::downcast_ref::<T>`: the held value when it is of type `T`, else `None`.
/// Nothing is stated of the result: which type a holder holds cannot be named in a contract.
#[verifier::external_body]
pub(crate) fn payload_get<T: 'static>(payload: &Payload) -> (r: Option<&T>) {
    payload.value.downcast_ref::<T>()
}

/// `Arc::clone`: another handle on the same held value.
#[verifier::external_body]
pub(crate) fn payload_share(payload: &Payload) -> (r: Payload)
    ensures
        r == *payload,
{
    Payload { value: Arc::clone(&payload.value) }
}

} // verus!
