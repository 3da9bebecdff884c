//! Persistent stores: a schema for the stored data and a driver for the backend.
use vstd::prelude::*;
use std::marker::PhantomData;
use crate::schema::primitives::SpecType;
use crate::indirect::primitives::IndirectType;
use crate::indirect::expr::{IndirectExpression, iexpression_validates};
use super::errors::{PersistenceError, SpecPersistenceError};

verus! {

/// A store of values of the data model `T`, conforming to a schema, held by the driver `D`.
pub struct PersistentStore<T, D> {
    phantom: PhantomData<T>,
    driver: D,
    schema: IndirectType,
}

impl<T, D> PersistentStore<T, D> {
    /// The schema of the stored data.
    pub closed spec fn spec_schema(&self) -> SpecType {
        self.schema@
    }

    /// The driver of the backend.
    pub closed spec fn spec_driver(&self) -> D {
        self.driver
    }

    /// A store with the given schema and driver.
    pub fn new(schema: IndirectType, driver: D) -> (r: Self)
        ensures
            r.spec_schema() == schema@,
            r.spec_driver() == driver,
    {
        Self { phantom: PhantomData, schema, driver }
    }

    /// The schema of the stored data.
    pub fn schema(&self) -> (r: &IndirectType)
        ensures
            r@ == self.spec_schema(),
    {
        &self.schema
    }

    /// The driver of the backend.
    pub fn driver(&self) -> (r: &D)
        ensures
            *r == self.spec_driver(),
    {
        &self.driver
    }

    /// Checks that a filter is valid under the store's schema, as every load does first.
    pub fn check_filter(&self, filter: &IndirectExpression) -> (r: Result<(), PersistenceError>)
        ensures
            match iexpression_validates(filter@, self.spec_schema()) {
                Ok(_) => r is Ok,
                Err(e) => r matches Err(re) && re@ == SpecPersistenceError::SchemaError(e),
            },
    {
        match filter.validate(&self.schema) {
            Ok(()) => Ok(()),
            Err(e) => Err(PersistenceError::SchemaError(e)),
        }
    }
}

} // verus!
