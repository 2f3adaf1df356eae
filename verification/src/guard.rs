//! The exclusive resource guard: one resource value behind a binary
//! access token.

use vstd::prelude::*;

verus! {

/// Owns a single resource of type `T` and serializes access to it.
///
/// The resource slot is `Some` whenever the access token is available;
/// it is emptied only for the duration of one action, and only by the
/// holder of the token, so no caller ever observes a moved-out resource.
pub struct ResourceGuard<T> {
    resource: Option<T>,
    available: bool,
}

impl<T> ResourceGuard<T> {
    /// The access token is available: no action is in flight.
    pub closed spec fn available(&self) -> bool {
        self.available
    }

    /// Well-formed: whenever the token is available, the resource slot
    /// is occupied.
    pub closed spec fn wf(&self) -> bool {
        self.available ==> self.resource is Some
    }

    /// The resource currently held by the guard.
    pub closed spec fn resource(&self) -> T
        recommends
            self.wf(),
            self.available(),
    {
        self.resource->Some_0
    }

    /// Creates a guard that owns `resource`, with the access token
    /// initially available. Never fails.
    pub fn new(resource: T) -> (g: Self)
        ensures
            g.wf(),
            g.available(),
            g.resource() == resource,
    {
        ResourceGuard { resource: Some(resource), available: true }
    }

    /// Grants `action` exclusive access to the resource: the token is
    /// consumed, the action runs against the resource, and the token is
    /// released as soon as the action has finished, whatever it returned.
    ///
    /// The action receives the guard's one resource value and hands back
    /// the (possibly mutated) resource together with its result; the
    /// returned resource is stored back into the same slot, so every
    /// action observes exactly the state left by the previous one.
    pub fn with_resource<F, R>(&mut self, action: F) -> (r: R) where F: FnOnce(T) -> (T, R)
        requires
            old(self).wf(),
            old(self).available(),
            call_requires(action, (old(self).resource(),)),
        ensures
            final(self).wf(),
            final(self).available(),
            call_ensures(action, (old(self).resource(),), (final(self).resource(), r)),
    {
        self.available = false;  // token consumed: entry is closed
        let t = self.resource.take().unwrap();
        let (t, r) = action(t);
        self.resource = Some(t);
        self.available = true;  // token released unconditionally
        r
    }

    /// The failure path of the access operation, stated explicitly: a
    /// fallible action's error propagates unchanged to the caller, and
    /// the token is released all the same — `final(self).available()`
    /// holds whether `r` is `Ok` or `Err` — so a subsequent call to the
    /// access operation is granted and no caller is ever starved by an
    /// earlier failure.
    pub fn try_with_resource<F, R, E>(&mut self, action: F) -> (r: Result<R, E>) where
        F: FnOnce(T) -> (T, Result<R, E>),

        requires
            old(self).wf(),
            old(self).available(),
            call_requires(action, (old(self).resource(),)),
        ensures
            final(self).wf(),
            final(self).available(),
            call_ensures(action, (old(self).resource(),), (final(self).resource(), r)),
    {
        self.with_resource(action)
    }
}

} // verus!
