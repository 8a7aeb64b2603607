use vstd::prelude::*;

use crate::handle::SocketHandle;
use crate::socket::Socket;
use managed::ManagedSlice;

verus! {

/// What an occupied slot records about its occupant.
#[derive(Debug, Clone, Copy, PartialEq, Eq, Structural, Default)]
pub(crate) struct Meta {
    /// The handle that names the slot; kept for diagnostics.
    pub(crate) handle: SocketHandle,
}

/// An occupant of a slot.
#[derive(Debug)]
pub(crate) struct Item {
    pub(crate) meta: Meta,
    pub(crate) socket: Socket,
}

/// Space for storing one socket.
///
/// A fixed socket set is built over a caller-owned buffer of these.
#[derive(Debug)]
pub struct SocketStorage {
    pub(crate) inner: Option<Item>,
}

impl SocketStorage {
    /// The socket held in this slot, if any.
    pub open(crate) spec fn occupant(self) -> Option<Socket> {
        match self.inner {
            Some(item) => Some(item.socket),
            None => None,
        }
    }

    /// The handle this slot records for its occupant, if any.
    pub open(crate) spec fn recorded(self) -> Option<SocketHandle> {
        match self.inner {
            Some(item) => Some(item.meta.handle),
            None => None,
        }
    }

    /// A vacant slot.
    pub open(crate) spec fn empty_spec() -> SocketStorage {
        SocketStorage { inner: None }
    }

    /// A vacant slot.
    pub fn empty() -> (r: SocketStorage)
        ensures
            r.occupant() is None,
            r == Self::empty_spec(),
    {
        SocketStorage { inner: None }
    }

    /// Whether this slot holds no socket.
    pub fn is_vacant(&self) -> (r: bool)
        ensures
            r == (self.occupant() is None),
    {
        self.inner.is_none()
    }
}

impl Default for SocketStorage {
    fn default() -> (r: SocketStorage)
        ensures
            r.occupant() is None,
    {
        SocketStorage { inner: None }
    }
}

#[verifier::external_type_specification]
#[verifier::external_body]
#[verifier::reject_recursive_types(T)]
pub struct ExManagedSlice<'a, T: 'a>(ManagedSlice<'a, T>);

/// The slots held by a managed slice, in index order.
pub uninterp spec fn slots_of(s: ManagedSlice<'_, SocketStorage>) -> Seq<SocketStorage>;

/// Whether a managed slice owns a growable vector rather than borrowing a fixed buffer.
pub uninterp spec fn is_owned(s: ManagedSlice<'_, SocketStorage>) -> bool;

/// Relies on `ManagedSlice`'s `From<&mut [T]>`: a borrowed buffer of fixed length.
#[verifier::external_body]
pub(crate) fn fixed_storage<'a>(buf: &'a mut [SocketStorage]) -> (r: ManagedSlice<
    'a,
    SocketStorage,
>)
    ensures
        slots_of(r) == old(buf)@,
        !is_owned(r),
{
    ManagedSlice::from(buf)
}

/// Relies on `ManagedSlice`'s `From<Vec<T>>`: an owned vector, which can grow.
#[verifier::external_body]
pub(crate) fn growable_storage<'a>(v: Vec<SocketStorage>) -> (r: ManagedSlice<
    'a,
    SocketStorage,
>)
    ensures
        slots_of(r) == v@,
        is_owned(r),
{
    ManagedSlice::from(v)
}

/// Relies on `ManagedSlice`'s `Deref` to a slice: the number of slots.
#[verifier::external_body]
pub(crate) fn slot_count(s: &ManagedSlice<'_, SocketStorage>) -> (r: usize)
    ensures
        r == slots_of(*s).len(),
{
    s.len()
}

/// Relies on `ManagedSlice`'s `Deref` to a slice: the slot at index `i`.
#[verifier::external_body]
pub(crate) fn slot_ref<'b>(s: &'b ManagedSlice<'_, SocketStorage>, i: usize) -> (r:
    &'b SocketStorage)
    requires
        i < slots_of(*s).len(),
    ensures
        *r == slots_of(*s)[i as int],
{
    &s[i]
}

/// Relies on `ManagedSlice`'s `DerefMut` to a slice: the slot at index `i`, mutably.
#[verifier::external_body]
pub(crate) fn slot_mut<'b>(s: &'b mut ManagedSlice<'_, SocketStorage>, i: usize) -> (r:
    &'b mut SocketStorage)
    requires
        i < slots_of(*old(s)).len(),
    ensures
        *r == slots_of(*old(s))[i as int],
        slots_of(*final(s)) == slots_of(*old(s)).update(i as int, *final(r)),
        is_owned(*final(s)) == is_owned(*old(s)),
{
    &mut s[i]
}

/// Relies on `ManagedSlice`'s `DerefMut` to a slice: all slots, mutably.
#[verifier::external_body]
pub(crate) fn slots_mut<'b>(s: &'b mut ManagedSlice<'_, SocketStorage>) -> (r:
    &'b mut [SocketStorage])
    ensures
        r@ == slots_of(*old(s)),
        slots_of(*final(s)) == final(r)@,
        is_owned(*final(s)) == is_owned(*old(s)),
{
    &mut s[..]
}

/// Relies on the variants of `ManagedSlice` and on `Vec::push`: a slot is appended
/// to an owned vector; a borrowed buffer cannot grow and the slot is handed back.
#[verifier::external_body]
pub(crate) fn push_slot(
    s: &mut ManagedSlice<'_, SocketStorage>,
    v: SocketStorage,
) -> (r: Result<(), SocketStorage>)
    ensures
        r.is_ok() == is_owned(*old(s)),
        is_owned(*final(s)) == is_owned(*old(s)),
        r.is_ok() ==> slots_of(*final(s)) == slots_of(*old(s)).push(v),
        r.is_err() ==> r->Err_0 == v && slots_of(*final(s)) == slots_of(*old(s)),
{
    match s {
        ManagedSlice::Owned(vec) => {
            vec.push(v);
            Ok(())
        },
        ManagedSlice::Borrowed(_) => Err(v),
    }
}

/// Relies on the variants of `ManagedSlice`: whether it owns a growable vector.
#[verifier::external_body]
pub(crate) fn slots_growable(s: &ManagedSlice<'_, SocketStorage>) -> (r: bool)
    ensures
        r == is_owned(*s),
{
    matches!(s, ManagedSlice::Owned(_))
}

} // verus!
