//! A rename2 override for tests: a union wrapped with a scripted behavior
//! that is consulted before any validation.
use vstd::prelude::*;

use std::time::Duration;

use crate::overlay::{rename2_outcome, Overlay, OverlayView};
use vstd::string::StringSliceAdditionalSpecFns;

verus! {

/// What the override does with a rename2 request.
#[derive(Clone, Copy, Debug)]
pub enum RenameBehavior {
    /// Forward to the real planner.
    Forward,
    /// Fail with this errno, touching nothing.
    Errno(i32),
    /// Wait this long, then forward.
    DelayOk(Duration),
}

/// A union whose rename2 goes through a replaceable [`RenameBehavior`].
pub struct MockLayer {
    inner: Overlay,
    behavior: RenameBehavior,
}

/// The result of an overridden rename2 and the union afterwards.
pub open spec fn hooked_rename2_spec(
    b: RenameBehavior,
    v: OverlayView,
    parent: u64,
    name_bytes: Seq<u8>,
    name: Seq<char>,
    new_parent: u64,
    new_name_bytes: Seq<u8>,
    new_name: Seq<char>,
    flags: u32,
) -> (Result<(), i32>, OverlayView) {
    match b {
        RenameBehavior::Errno(e) => (Err(e), v),
        _ => rename2_outcome(v, parent, name_bytes, name, new_parent, new_name_bytes, new_name, flags),
    }
}

impl MockLayer {
    /// The wrapped union.
    pub closed spec fn inner_view(&self) -> OverlayView {
        self.inner@
    }

    /// The active behavior.
    pub closed spec fn behavior_spec(&self) -> RenameBehavior {
        self.behavior
    }

    /// Wraps `inner` with behavior `b`.
    pub fn new_from_passthrough(inner: Overlay, b: RenameBehavior) -> (r: MockLayer)
        ensures
            r.inner_view() == inner@,
            r.behavior_spec() == b,
    {
        MockLayer { inner, behavior: b }
    }

    /// Behavior `b` over a union with no lower layers and an empty upper layer.
    pub fn new(b: RenameBehavior) -> (r: MockLayer)
        ensures
            r.inner_view().upper.names.is_empty(),
            r.inner_view().upper.opaque.is_empty(),
            r.inner_view().lowers.len() == 0,
            r.behavior_spec() == b,
    {
        let inner = Overlay::new(Vec::new());
        MockLayer::new_from_passthrough(inner, b)
    }

    /// Replaces the active behavior.
    pub fn set_behavior(&mut self, b: RenameBehavior)
        ensures
            final(self).behavior_spec() == b,
            final(self).inner_view() == old(self).inner_view(),
    {
        self.behavior = b;
    }

    /// The active behavior.
    pub fn behavior(&self) -> (r: RenameBehavior)
        ensures
            r == self.behavior_spec(),
    {
        self.behavior
    }

    /// The wrapped union.
    pub fn inner(&self) -> (r: &Overlay)
        ensures
            r@ == self.inner_view(),
    {
        &self.inner
    }

    /// How long a caller waits before it calls [`MockLayer::rename2`]:
    /// the delay of `DelayOk`, nothing otherwise.
    pub fn delay(&self) -> (r: Option<Duration>)
        ensures
            match self.behavior_spec() {
                RenameBehavior::DelayOk(d) => r == Some(d),
                _ => r is None,
            },
    {
        match self.behavior {
            RenameBehavior::DelayOk(d) => Some(d),
            _ => None,
        }
    }

    /// rename2 through the override: `Errno(e)` fails with `e` and leaves
    /// the union untouched; `Forward` and `DelayOk` forward to the planner (the
    /// wait of `DelayOk` is the caller's, see [`MockLayer::delay`]).
    pub fn rename2(&mut self, parent: u64, name: &str, new_parent: u64, new_name: &str, flags: u32) -> (r: Result<(), i32>)
        ensures
            (r, final(self).inner_view()) == hooked_rename2_spec(
                old(self).behavior_spec(),
                old(self).inner_view(),
                parent,
                name.spec_bytes(),
                name@,
                new_parent,
                new_name.spec_bytes(),
                new_name@,
                flags,
            ),
            final(self).behavior_spec() == old(self).behavior_spec(),
    {
        match self.behavior {
            RenameBehavior::Errno(e) => Err(e),
            _ => self.inner.rename2(parent, name, new_parent, new_name, flags),
        }
    }
}

} // verus!
