use vstd::prelude::*;

verus! {

/// Identifier of an account or component: the 30 bytes of its node id.
#[derive(Clone, Copy, Debug)]
pub struct ComponentId {
    pub bytes: [u8; 30],
}

/// Identifier of a resource (an asset kind): the 30 bytes of its node id.
#[derive(Clone, Copy, Debug)]
pub struct ResourceId {
    pub bytes: [u8; 30],
}

impl View for ComponentId {
    type V = Seq<u8>;

    open spec fn view(&self) -> Seq<u8> {
        self.bytes@
    }
}

impl View for ResourceId {
    type V = Seq<u8>;

    open spec fn view(&self) -> Seq<u8> {
        self.bytes@
    }
}

/// Byte-wise comparison of two node ids.
fn same_bytes(a: &[u8; 30], b: &[u8; 30]) -> (r: bool)
    ensures
        r == (a@ == b@),
{
    let mut i: usize = 0;
    while i < 30
        invariant
            i <= 30,
            a@.len() == 30,
            b@.len() == 30,
            forall|k: int| 0 <= k < i ==> a@[k] == b@[k],
        decreases 30 - i,
    {
        if a[i] != b[i] {
            assert(a@[i as int] != b@[i as int]);
            return false;
        }
        i = i + 1;
    }
    assert(a@ =~= b@);
    true
}

impl ComponentId {
    pub fn new(bytes: [u8; 30]) -> (r: ComponentId)
        ensures
            r@ == bytes@,
    {
        ComponentId { bytes }
    }

    /// Whether the two ids name the same component.
    pub fn same_as(&self, other: &ComponentId) -> (r: bool)
        ensures
            r == (self@ == other@),
    {
        same_bytes(&self.bytes, &other.bytes)
    }
}

impl ResourceId {
    pub fn new(bytes: [u8; 30]) -> (r: ResourceId)
        ensures
            r@ == bytes@,
    {
        ResourceId { bytes }
    }

    /// Whether the two ids name the same resource.
    pub fn same_as(&self, other: &ResourceId) -> (r: bool)
        ensures
            r == (self@ == other@),
    {
        same_bytes(&self.bytes, &other.bytes)
    }
}

} // verus!
