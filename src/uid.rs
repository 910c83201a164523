use vstd::prelude::*;

verus! {

/// A correlation identifier that ties a build or run request to the
/// responses that come back for it.
#[derive(Clone, Copy, Debug, PartialEq, Eq, Structural)]
pub struct HubUid {
    pub id: u64,
}

/// Hands out correlation identifiers. Every identifier is strictly smaller
/// than `next`, so a freshly allocated one differs from all earlier ones.
#[derive(Clone, Copy, Debug)]
pub struct UidAlloc {
    pub next: u64,
}

impl UidAlloc {
    pub fn new() -> (r: UidAlloc)
        ensures
            r.next == 0,
    {
        UidAlloc { next: 0 }
    }

    /// There is room for `n` more identifiers.
    pub open spec fn has_room(&self, n: int) -> bool {
        self.next + n <= u64::MAX
    }

    pub fn alloc_uid(&mut self) -> (r: HubUid)
        requires
            old(self).has_room(1),
        ensures
            r.id == old(self).next,
            final(self).next == old(self).next + 1,
    {
        let r = HubUid { id: self.next };
        self.next = self.next + 1;
        r
    }
}

} // verus!
