use vstd::prelude::*;

verus! {

/// Capacity of an advertisement payload: the 31 bytes of a legacy
/// advertising PDU's data.
pub const ADV_PAYLOAD_CAPACITY: usize = 31;

/// An advertisement payload, kept in a `heapless::Vec<u8, 31>`.
///
/// heapless 0.9 defines its `Vec` as an alias of a type whose storage
/// parameter is a crate-private type, which cannot be declared to Verus, so
/// the vector is held here and its contents are named by `payload_bytes`.
#[verifier::external_body]
pub struct AdvPayload {
    bytes: heapless::Vec<u8, 31>,
}

/// The bytes that a payload holds, in order.
pub uninterp spec fn payload_bytes(p: AdvPayload) -> Seq<u8>;

impl AdvPayload {
    /// `heapless::Vec::new`: an empty vector.
    #[verifier::external_body]
    pub(crate) fn new() -> (p: Self)
        ensures
            payload_bytes(p) == Seq::<u8>::empty(),
    {
        AdvPayload { bytes: heapless::Vec::new() }
    }

    /// `heapless::Vec::extend_from_slice`: appends `other` when it fits in the
    /// remaining capacity; otherwise fails and changes nothing.
    #[verifier::external_body]
    pub(crate) fn extend_from_slice(&mut self, other: &[u8]) -> (r: Result<(), ()>)
        ensures
            r is Ok <==> payload_bytes(*old(self)).len() + other@.len() <= ADV_PAYLOAD_CAPACITY,
            r is Ok ==> payload_bytes(*final(self)) == payload_bytes(*old(self)) + other@,
            r is Err ==> payload_bytes(*final(self)) == payload_bytes(*old(self)),
    {
        self.bytes.extend_from_slice(other).map_err(|_| ())
    }

    /// `heapless::Vec::as_slice`: the bytes held, never more than the capacity.
    #[verifier::external_body]
    pub(crate) fn as_slice(&self) -> (s: &[u8])
        ensures
            s@ == payload_bytes(*self),
            s@.len() <= ADV_PAYLOAD_CAPACITY,
    {
        self.bytes.as_slice()
    }
}

/// Capacity of the list of MAC address parts.
pub const MAC_PARTS_CAPACITY: usize = 6;

/// The parts of a MAC address, kept in a `heapless::Vec<&str, 6>` (held
/// here for the reason given at `AdvPayload`).
#[verifier::external_body]
pub struct MacParts<'a> {
    parts: heapless::Vec<&'a str, 6>,
}

/// The parts that a list holds, in order, each as its characters.
pub uninterp spec fn mac_parts_items(p: MacParts) -> Seq<Seq<char>>;

impl<'a> MacParts<'a> {
    /// `heapless::Vec::new`: an empty list.
    #[verifier::external_body]
    pub(crate) fn new() -> (p: Self)
        ensures
            mac_parts_items(p) == Seq::<Seq<char>>::empty(),
    {
        MacParts { parts: heapless::Vec::new() }
    }

    /// `heapless::Vec::push`: appends `part` while there is room; on a full
    /// list fails and changes nothing.
    #[verifier::external_body]
    pub(crate) fn push(&mut self, part: &'a str) -> (r: Result<(), &'a str>)
        ensures
            r is Ok <==> mac_parts_items(*old(self)).len() < MAC_PARTS_CAPACITY,
            r is Ok ==> mac_parts_items(*final(self)) == mac_parts_items(*old(self)).push(part@),
            r is Err ==> mac_parts_items(*final(self)) == mac_parts_items(*old(self)),
    {
        self.parts.push(part)
    }

    /// `heapless::Vec::len`: the number of parts held.
    #[verifier::external_body]
    pub(crate) fn len(&self) -> (n: usize)
        ensures
            n == mac_parts_items(*self).len(),
            n <= MAC_PARTS_CAPACITY,
    {
        self.parts.len()
    }

    /// Indexing a `heapless::Vec`: the part at `i`.
    #[verifier::external_body]
    pub(crate) fn get(&self, i: usize) -> (part: &'a str)
        requires
            i < mac_parts_items(*self).len(),
        ensures
            part@ == mac_parts_items(*self)[i as int],
    {
        self.parts[i]
    }
}

} // verus!
