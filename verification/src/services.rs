//! The service registry: long-lived collaborators of the application, looked
//! up by an exact tag from controllers and from background work.
//!
//! `V` is the application's service slot, usually an enum with one variant
//! for each kind of service. The registry is filled by its builder and never
//! changes afterwards.
use std::collections::HashMap;
use std::sync::Arc;
use vstd::prelude::*;

verus! {

broadcast use vstd::std_specs::hash::group_hash_axioms;

/// Tag of a registered service.
#[derive(Debug, Clone, Copy, PartialEq, Eq, Hash, Structural)]
pub struct MistyServiceId(pub u64);

impl MistyServiceId {
    pub fn new(id: u64) -> (r: Self)
        ensures
            r.0 == id,
    {
        Self(id)
    }
}

/// How an application may hold the implementation behind a service.
pub enum ServiceImplPtr<T> {
    Boxed(Box<T>),
    Arc(Arc<T>),
}

pub struct MistyServiceManagerBuilder<V> {
    services: HashMap<u64, V>,
}

pub struct MistyServiceManager<V> {
    services: HashMap<u64, V>,
}

impl<V> View for MistyServiceManagerBuilder<V> {
    type V = Map<u64, V>;

    closed spec fn view(&self) -> Map<u64, V> {
        self.services@
    }
}

impl<V> View for MistyServiceManager<V> {
    type V = Map<u64, V>;

    closed spec fn view(&self) -> Map<u64, V> {
        self.services@
    }
}

impl<V> MistyServiceManagerBuilder<V> {
    pub fn new() -> (r: Self)
        ensures
            r@ == Map::<u64, V>::empty(),
    {
        MistyServiceManagerBuilder { services: HashMap::new() }
    }

    /// Registers `service` under `id`, in place of what was registered under
    /// that tag before.
    pub fn add(self, id: MistyServiceId, service: V) -> (r: Self)
        ensures
            r@ == self@.insert(id.0, service),
    {
        let mut builder = self;
        builder.services.insert(id.0, service);
        builder
    }

    pub fn build(self) -> (r: MistyServiceManager<V>)
        ensures
            r@ == self@,
    {
        MistyServiceManager { services: self.services }
    }
}

impl<V> MistyServiceManager<V> {
    pub fn builder() -> (r: MistyServiceManagerBuilder<V>)
        ensures
            r@ == Map::<u64, V>::empty(),
    {
        MistyServiceManagerBuilder::new()
    }

    pub fn contains(&self, id: MistyServiceId) -> (b: bool)
        ensures
            b == self@.contains_key(id.0),
    {
        self.services.contains_key(&id.0)
    }

    /// The service under `id`, if one is registered.
    pub fn get(&self, id: MistyServiceId) -> (service: Option<&V>)
        ensures
            service is Some <==> self@.contains_key(id.0),
            service matches Some(s) ==> *s == self@[id.0],
    {
        self.services.get(&id.0)
    }

    /// The service under `id`, which is registered.
    pub fn of(&self, id: MistyServiceId) -> (service: &V)
        requires
            self@.contains_key(id.0),
        ensures
            *service == self@[id.0],
    {
        self.services.get(&id.0).unwrap()
    }
}

} // verus!
