use vstd::prelude::*;

use crate::handle::SocketHandle;
use crate::socket::{AnySocket, Socket};
use crate::storage::{
    fixed_storage, growable_storage, is_owned, push_slot, slot_count, slot_mut, slots_mut, slot_ref, slots_growable, slots_of, Item, Meta,
    SocketStorage,
};
use managed::ManagedSlice;

verus! {

/// Why a socket set refused an operation.
#[derive(Debug, Clone, Copy, PartialEq, Eq, Structural)]
pub enum SocketSetError {
    /// The handle's index is past the end of the storage.
    OutOfBounds,
    /// The handle names a slot that holds no socket.
    Vacant,
    /// The slot holds a socket of another kind than the one asked for.
    WrongType,
    /// Fixed storage has no vacant slot left.
    Full,
}

impl SocketSetError {
    /// A human-readable description of the error.
    pub fn message(&self) -> (r: &'static str)
        ensures
            *self == SocketSetError::OutOfBounds ==> r@ == "handle is out of bounds"@,
            *self == SocketSetError::Vacant ==> r@ == "handle does not refer to a valid socket"@,
            *self == SocketSetError::WrongType ==> r@ == "handle refers to a socket of a wrong type"@,
            *self == SocketSetError::Full ==> r@ == "socket storage is full"@,
    {
        match self {
            SocketSetError::OutOfBounds => {
                proof { reveal_strlit("handle is out of bounds"); }
                "handle is out of bounds"
            },
            SocketSetError::Vacant => {
                proof { reveal_strlit("handle does not refer to a valid socket"); }
                "handle does not refer to a valid socket"
            },
            SocketSetError::WrongType => {
                proof { reveal_strlit("handle refers to a socket of a wrong type"); }
                "handle refers to a socket of a wrong type"
            },
            SocketSetError::Full => {
                proof { reveal_strlit("socket storage is full"); }
                "socket storage is full"
            },
        }
    }
}

/// The socket held in each slot, in index order.
pub open spec fn occupants(slots: Seq<SocketStorage>) -> Seq<Option<Socket>> {
    slots.map_values(|s: SocketStorage| s.occupant())
}

/// The socket that slot `i` of `v` holds, or why there is none.
pub open spec fn lookup(v: Seq<Option<Socket>>, i: int) -> Result<Socket, SocketSetError> {
    if i < 0 || i >= v.len() {
        Err(SocketSetError::OutOfBounds)
    } else {
        match v[i] {
            Some(s) => Ok(s),
            None => Err(SocketSetError::Vacant),
        }
    }
}

/// The socket of kind `T` that slot `i` of `v` holds, or the first check that fails.
pub open spec fn get_result<T: AnySocket>(v: Seq<Option<Socket>>, i: int) -> Result<
    T,
    SocketSetError,
> {
    match lookup(v, i) {
        Ok(s) => match T::downcast_spec(s) {
            Some(t) => Ok(t),
            None => Err(SocketSetError::WrongType),
        },
        Err(e) => Err(e),
    }
}

/// Whether every slot of `v` holds a socket.
pub open spec fn all_occupied(v: Seq<Option<Socket>>) -> bool {
    forall|j: int| 0 <= j < v.len() ==> v[j] is Some
}

/// Whether no slot of `v` holds a socket.
pub open spec fn all_vacant(v: Seq<Option<Socket>>) -> bool {
    forall|j: int| 0 <= j < v.len() ==> v[j] is None
}

/// Whether `i` is the lowest vacant slot of `v`.
pub open spec fn first_vacant(v: Seq<Option<Socket>>, i: int) -> bool {
    &&& 0 <= i < v.len()
    &&& v[i] is None
    &&& forall|j: int| 0 <= j < i ==> v[j] is Some
}

/// The slot that adding a socket fills: the lowest vacant one; failing that, a new
/// slot at the end when the storage can grow; failing that, none.
pub open spec fn add_index(v: Seq<Option<Socket>>, growable: bool) -> Option<int> {
    if !all_occupied(v) {
        Some(choose|i: int| first_vacant(v, i))
    } else if growable {
        Some(v.len() as int)
    } else {
        None
    }
}

/// The slots after adding `s`.
pub open spec fn add_model(v: Seq<Option<Socket>>, growable: bool, s: Socket) -> Seq<
    Option<Socket>,
> {
    match add_index(v, growable) {
        Some(i) => if i < v.len() {
            v.update(i, Some(s))
        } else {
            v.push(Some(s))
        },
        None => v,
    }
}

/// The slots after removing the socket in slot `i`.
pub open spec fn remove_model(v: Seq<Option<Socket>>, i: int) -> Seq<Option<Socket>> {
    if lookup(v, i) is Ok {
        v.update(i, None)
    } else {
        v
    }
}

/// The indices of the occupied slots among the first `n` of `v`, ascending.
pub open spec fn occupied_indices(v: Seq<Option<Socket>>, n: int) -> Seq<int>
    decreases n,
{
    if n <= 0 {
        seq![]
    } else if v[n - 1] is Some {
        occupied_indices(v, n - 1).push(n - 1)
    } else {
        occupied_indices(v, n - 1)
    }
}

/// A slot that is not occupied has a lowest vacant slot at or below it.
pub proof fn lemma_first_vacant_exists(v: Seq<Option<Socket>>, k: int)
    requires
        0 <= k < v.len(),
        v[k] is None,
    ensures
        exists|i: int| first_vacant(v, i),
    decreases k,
{
    if exists|j: int| 0 <= j < k && v[j] is None {
        let j = choose|j: int| 0 <= j < k && v[j] is None;
        lemma_first_vacant_exists(v, j);
    } else {
        assert(first_vacant(v, k));
    }
}

/// There is at most one lowest vacant slot.
pub proof fn lemma_first_vacant_unique(v: Seq<Option<Socket>>, i: int, k: int)
    requires
        first_vacant(v, i),
        first_vacant(v, k),
    ensures
        i == k,
{
    if i < k {
        assert(v[i] is Some);
    } else if k < i {
        assert(v[k] is Some);
    }
}

/// Every index in `occupied_indices(v, n)` is an occupied slot below `n`.
pub proof fn lemma_occupied_indices_bounded(v: Seq<Option<Socket>>, n: int)
    requires
        0 <= n <= v.len(),
    ensures
        forall|k: int|
            0 <= k < occupied_indices(v, n).len() ==> {
                let i = #[trigger] occupied_indices(v, n)[k];
                &&& 0 <= i < n
                &&& v[i] is Some
            },
    decreases n,
{
    if n > 0 {
        lemma_occupied_indices_bounded(v, n - 1);
    }
}

/// Every slot of `s` that records a handle records the one naming it.
pub(crate) open spec fn records_own_index(s: Seq<SocketStorage>) -> bool {
    forall|i: int|
        0 <= i < s.len() && (#[trigger] s[i]).recorded() is Some ==> s[i].recorded() == Some(
            SocketHandle(i as usize),
        )
}

/// Slots that hold no socket record no handle.
pub(crate) proof fn lemma_vacant_records_nothing(s: Seq<SocketStorage>)
    requires
        all_vacant(occupants(s)),
    ensures
        records_own_index(s),
{
    assert forall|i: int| 0 <= i < s.len() implies (#[trigger] s[i]).recorded() is None by {
        assert(occupants(s)[i] is None);
    }
}

/// Appending a slot that records nothing keeps every slot recording its own index.
pub(crate) proof fn lemma_push_vacant(s: Seq<SocketStorage>, x: SocketStorage)
    requires
        records_own_index(s),
        x.recorded() is None,
    ensures
        records_own_index(s.push(x)),
{
    assert forall|j: int|
        0 <= j < s.len() + 1 && (#[trigger] s.push(x)[j]).recorded() is Some implies s.push(
            x,
        )[j].recorded() == Some(SocketHandle(j as usize)) by {
        assert(s.push(x)[j] == s[j]);
    }
}

/// Slots that all record their own index keep doing so when one slot is replaced
/// by another that records the same handle, or none, or its own.
pub(crate) proof fn lemma_replace_slot(s: Seq<SocketStorage>, i: int, x: SocketStorage)
    requires
        records_own_index(s),
        0 <= i < s.len(),
        x.recorded() is Some ==> x.recorded() == Some(SocketHandle(i as usize)),
    ensures
        records_own_index(s.update(i, x)),
{
    assert forall|j: int|
        0 <= j < s.len() && (#[trigger] s.update(i, x)[j]).recorded() is Some implies s.update(
            i,
            x,
        )[j].recorded() == Some(SocketHandle(j as usize)) by {
        if j != i {
            assert(s.update(i, x)[j] == s[j]);
        }
    }
}

/// An extensible set of sockets, over fixed or growable storage.
#[derive(Debug)]
pub struct SocketSet<'a> {
    sockets: ManagedSlice<'a, SocketStorage>,
}

impl<'a> View for SocketSet<'a> {
    type V = Seq<Option<Socket>>;

    /// The socket held in each slot, in index order.
    closed spec fn view(&self) -> Seq<Option<Socket>> {
        occupants(slots_of(self.sockets))
    }
}

impl<'a> SocketSet<'a> {
    /// Whether the storage can grow.
    pub closed spec fn growable(&self) -> bool {
        is_owned(self.sockets)
    }

    /// The handle that slot `i` records for its occupant, if any.
    pub closed spec fn recorded_handle(&self, i: int) -> Option<SocketHandle> {
        slots_of(self.sockets)[i].recorded()
    }

    /// Every occupied slot records the handle that names it.
    pub closed spec fn well_formed(&self) -> bool {
        records_own_index(slots_of(self.sockets))
    }

    /// Create a socket set over the given storage: a borrowed buffer of fixed
    /// length, or an owned vector that grows as sockets are added.
    pub fn new(sockets: ManagedSlice<'a, SocketStorage>) -> (r: SocketSet<'a>)
        ensures
            r@ == occupants(slots_of(sockets)),
            r.growable() == is_owned(sockets),
            all_vacant(occupants(slots_of(sockets))) ==> r.well_formed(),
    {
        proof {
            if all_vacant(occupants(slots_of(sockets))) {
                lemma_vacant_records_nothing(slots_of(sockets));
            }
        }
        SocketSet { sockets }
    }

    /// Create a socket set over a caller-owned buffer; it never grows.
    pub fn new_fixed(sockets: &'a mut [SocketStorage]) -> (r: SocketSet<'a>)
        ensures
            r@ == occupants(old(sockets)@),
            !r.growable(),
            all_vacant(occupants(old(sockets)@)) ==> r.well_formed(),
    {
        let r = SocketSet { sockets: fixed_storage(sockets) };
        proof {
            if all_vacant(occupants(old(sockets)@)) {
                lemma_vacant_records_nothing(old(sockets)@);
            }
        }
        r
    }

    /// Create a socket set over an owned vector, which grows as sockets are added.
    pub fn new_growable(sockets: Vec<SocketStorage>) -> (r: SocketSet<'a>)
        ensures
            r@ == occupants(sockets@),
            r.growable(),
            all_vacant(occupants(sockets@)) ==> r.well_formed(),
    {
        proof {
            if all_vacant(occupants(sockets@)) {
                lemma_vacant_records_nothing(sockets@);
            }
        }
        SocketSet { sockets: growable_storage(sockets) }
    }

    /// Whether the storage can grow.
    pub fn is_growable(&self) -> (r: bool)
        ensures
            r == self.growable(),
    {
        slots_growable(&self.sockets)
    }

    /// The number of slots, vacant or not.
    pub fn capacity(&self) -> (r: usize)
        ensures
            r == self@.len(),
    {
        slot_count(&self.sockets)
    }

    /// Place `socket` in slot `index` and return the handle naming it.
    fn put(&mut self, index: usize, socket: Socket) -> (r: SocketHandle)
        requires
            index < old(self)@.len(),
        ensures
            r.index() == index,
            final(self)@ == old(self)@.update(index as int, Some(socket)),
            final(self).growable() == old(self).growable(),
            final(self).recorded_handle(index as int) == Some(r),
            old(self).well_formed() ==> final(self).well_formed(),
    {
        let handle = SocketHandle(index);
        let slot = slot_mut(&mut self.sockets, index);
        let filled = SocketStorage { inner: Some(Item { meta: Meta { handle }, socket }) };
        proof {
            if old(self).well_formed() {
                lemma_replace_slot(slots_of(old(self).sockets), index as int, filled);
            }
        }
        *slot = filled;
        proof {
            assert(occupants(slots_of(self.sockets)) =~= occupants(slots_of(old(self).sockets)).update(index as int, Some(socket)));
        }
        handle
    }

    /// Add a socket to the set and return its handle.
    ///
    /// The lowest vacant slot is filled. When every slot is occupied, growable
    /// storage gains one slot at the end, and fixed storage refuses with `Full`.
    pub fn add<T: AnySocket>(&mut self, socket: T) -> (r: Result<SocketHandle, SocketSetError>)
        ensures
            final(self).growable() == old(self).growable(),
            final(self)@ == add_model(old(self)@, old(self).growable(), socket.upcast_spec()),
            old(self).well_formed() ==> final(self).well_formed(),
            match add_index(old(self)@, old(self).growable()) {
                Some(i) => {
                    &&& r.is_ok()
                    &&& r.unwrap().index() == i
                    &&& final(self).recorded_handle(i) == Some(r.unwrap())
                },
                None => r.is_err() && r->Err_0 == SocketSetError::Full,
            },
    {
        let stored = socket.upcast();
        let n = slot_count(&self.sockets);
        let mut index: usize = 0;
        while index < n
            invariant
                *self == *old(self),
                stored == socket.upcast_spec(),
                n == self@.len(),
                index <= n,
                forall|j: int| 0 <= j < index ==> self@[j] is Some,
            decreases n - index,
        {
            let slot = slot_ref(&self.sockets, index);
            if slot.is_vacant() {
                proof {
                    assert(first_vacant(self@, index as int));
                    assert(!all_occupied(self@));
                    lemma_first_vacant_exists(self@, index as int);
                    let c = choose|i: int| first_vacant(self@, i);
                    lemma_first_vacant_unique(self@, c, index as int);
                    assert(add_index(old(self)@, old(self).growable()) == Some(index as int));
                }
                let handle = self.put(index, stored);
                return Ok(handle);
            }
            index += 1;
        }
        let ghost before = self@;
        match push_slot(&mut self.sockets, SocketStorage::empty()) {
            Ok(()) => {
                proof {
                    assert(self@ =~= before.push(None));
                    if old(self).well_formed() {
                        lemma_push_vacant(slots_of(old(self).sockets), SocketStorage::empty_spec());
                    }
                }
                let last = slot_count(&self.sockets) - 1;
                let handle = self.put(last, stored);
                proof {
                    assert(self@ =~= before.push(Some(stored)));
                }
                Ok(handle)
            },
            Err(_) => Err(SocketSetError::Full),
        }
    }
    /// Borrow the socket of kind `T` that `handle` names.
    ///
    /// Fails with `OutOfBounds` when the index is past the end of the storage,
    /// `Vacant` when the slot holds no socket, and `WrongType` when it holds a
    /// socket of another kind, checked in that order.
    pub fn try_get<T: AnySocket>(&self, handle: SocketHandle) -> (r: Result<&T, SocketSetError>)
        ensures
            match get_result::<T>(self@, handle.index()) {
                Ok(t) => r.is_ok() && *r.unwrap() == t,
                Err(e) => r.is_err() && r->Err_0 == e,
            },
    {
        if handle.0 >= slot_count(&self.sockets) {
            return Err(SocketSetError::OutOfBounds);
        }
        let entry = slot_ref(&self.sockets, handle.0);
        match &entry.inner {
            None => Err(SocketSetError::Vacant),
            Some(item) => match T::downcast(&item.socket) {
                Some(t) => Ok(t),
                None => Err(SocketSetError::WrongType),
            },
        }
    }

    /// Borrow the socket of kind `T` that `handle` names; fails as `try_get` does.
    pub fn get<T: AnySocket>(&self, handle: SocketHandle) -> (r: Result<&T, SocketSetError>)
        ensures
            match get_result::<T>(self@, handle.index()) {
                Ok(t) => r.is_ok() && *r.unwrap() == t,
                Err(e) => r.is_err() && r->Err_0 == e,
            },
    {
        self.try_get(handle)
    }

    /// Borrow mutably the socket of kind `T` that `handle` names.
    ///
    /// Fails as `try_get` does, and then leaves the set unchanged. On success the
    /// slot ends up holding whatever the caller leaves behind the reference.
    pub fn try_get_mut<T: AnySocket>(&mut self, handle: SocketHandle) -> (r: Result<
        &mut T,
        SocketSetError,
    >)
        ensures
            final(self).growable() == old(self).growable(),
            old(self).well_formed() ==> final(self).well_formed(),
            match get_result::<T>(old(self)@, handle.index()) {
                Ok(t) => {
                    &&& r.is_ok()
                    &&& *r.unwrap() == t
                    &&& final(self)@ == old(self)@.update(
                        handle.index(),
                        Some((*final(r.unwrap())).upcast_spec()),
                    )
                },
                Err(e) => r.is_err() && r->Err_0 == e && final(self)@ == old(self)@,
            },
    {
        if handle.0 >= slot_count(&self.sockets) {
            return Err(SocketSetError::OutOfBounds);
        }
        let ghost before = slots_of(self.sockets);
        let entry = slot_mut(&mut self.sockets, handle.0);
        let ghost entry_final = *final(entry);
        match entry.inner.as_mut() {
            None => Err(SocketSetError::Vacant),
            Some(item) => {
                let ghost item_final = *final(item);
                let ghost meta = item.meta;
                let r = match T::downcast_mut(&mut item.socket) {
                    Some(t) => Ok(t),
                    None => Err(SocketSetError::WrongType),
                };
                proof {
                    if old(self).well_formed() {
                        assert(item_final.meta == meta);
                        assert(before[handle.index()].recorded() is Some);
                        lemma_replace_slot(before, handle.index(), entry_final);
                    }
                }
                r
            },
        }
    }

    /// Borrow mutably the socket of kind `T` that `handle` names; fails as
    /// `try_get_mut` does.
    pub fn get_mut<T: AnySocket>(&mut self, handle: SocketHandle) -> (r: Result<
        &mut T,
        SocketSetError,
    >)
        ensures
            final(self).growable() == old(self).growable(),
            old(self).well_formed() ==> final(self).well_formed(),
            match get_result::<T>(old(self)@, handle.index()) {
                Ok(t) => {
                    &&& r.is_ok()
                    &&& *r.unwrap() == t
                    &&& final(self)@ == old(self)@.update(
                        handle.index(),
                        Some((*final(r.unwrap())).upcast_spec()),
                    )
                },
                Err(e) => r.is_err() && r->Err_0 == e && final(self)@ == old(self)@,
            },
    {
        self.try_get_mut(handle)
    }
    /// Take the socket that `handle` names out of the set, unchanged, leaving
    /// its slot vacant.
    ///
    /// Fails with `OutOfBounds` or `Vacant` as `try_get` does, and then leaves
    /// the set unchanged.
    pub fn try_remove(&mut self, handle: SocketHandle) -> (r: Result<Socket, SocketSetError>)
        ensures
            final(self).growable() == old(self).growable(),
            old(self).well_formed() ==> final(self).well_formed(),
            final(self)@ == remove_model(old(self)@, handle.index()),
            r == lookup(old(self)@, handle.index()),
    {
        if handle.0 >= slot_count(&self.sockets) {
            return Err(SocketSetError::OutOfBounds);
        }
        let ghost before = self@;
        let entry = slot_mut(&mut self.sockets, handle.0);
        match entry.inner.take() {
            None => Err(SocketSetError::Vacant),
            Some(item) => {
                proof {
                    assert(self@ =~= before.update(handle.index(), None));
                    if old(self).well_formed() {
                        lemma_replace_slot(slots_of(old(self).sockets), handle.index(), *entry);
                    }
                }
                Ok(item.socket)
            },
        }
    }

    /// Take the socket that `handle` names out of the set; fails as
    /// `try_remove` does.
    pub fn remove(&mut self, handle: SocketHandle) -> (r: Result<Socket, SocketSetError>)
        ensures
            final(self).growable() == old(self).growable(),
            old(self).well_formed() ==> final(self).well_formed(),
            final(self)@ == remove_model(old(self)@, handle.index()),
            r == lookup(old(self)@, handle.index()),
    {
        self.try_remove(handle)
    }

    /// Each occupied slot's handle with the socket it holds, in ascending
    /// order of index.
    pub fn iter(&self) -> (r: Vec<(SocketHandle, &Socket)>)
        ensures
            r@.len() == occupied_indices(self@, self@.len() as int).len(),
            forall|k: int|
                0 <= k < r@.len() ==> {
                    let i = occupied_indices(self@, self@.len() as int)[k];
                    &&& (#[trigger] r@[k]).0.index() == i
                    &&& self@[i] == Some(*r@[k].1)
                },
    {
        let n = slot_count(&self.sockets);
        let mut out: Vec<(SocketHandle, &Socket)> = Vec::new();
        let mut index: usize = 0;
        while index < n
            invariant
                n == self@.len(),
                index <= n,
                out@.len() == occupied_indices(self@, index as int).len(),
                forall|k: int|
                    0 <= k < out@.len() ==> {
                        let i = occupied_indices(self@, index as int)[k];
                        &&& (#[trigger] out@[k]).0.index() == i
                        &&& self@[i] == Some(*out@[k].1)
                    },
            decreases n - index,
        {
            let slot = slot_ref(&self.sockets, index);
            proof {
                lemma_occupied_indices_bounded(self@, index as int);
            }
            match &slot.inner {
                Some(item) => {
                    out.push((SocketHandle(index), &item.socket));
                },
                None => {},
            }
            index += 1;
        }
        out
    }

    /// Each occupied slot's handle with a mutable borrow of the socket it holds,
    /// in ascending order of index. Each slot ends up holding what is left
    /// behind its reference; vacant slots stay vacant.
    pub fn iter_mut(&mut self) -> (r: Vec<(SocketHandle, &mut Socket)>)
        ensures
            final(self).growable() == old(self).growable(),
            old(self).well_formed() ==> final(self).well_formed(),
            final(self)@.len() == old(self)@.len(),
            r@.len() == occupied_indices(old(self)@, old(self)@.len() as int).len(),
            forall|k: int|
                0 <= k < r@.len() ==> {
                    let i = occupied_indices(old(self)@, old(self)@.len() as int)[k];
                    &&& (#[trigger] r@[k]).0.index() == i
                    &&& old(self)@[i] == Some(*r@[k].1)
                    &&& final(self)@[i] == Some(*final(r@[k].1))
                },
            forall|i: int| 0 <= i < old(self)@.len() && old(self)@[i] is None ==> final(self)@[i] is None,
    {
        let ghost v = self@;
        let n = slot_count(&self.sockets);
        let top = slots_mut(&mut self.sockets);
        let ghost top_final = final(top)@;
        let mut rest = top;
        let mut out: Vec<(SocketHandle, &mut Socket)> = Vec::new();
        let mut index: usize = 0;
        while index < n
            invariant
                n == v.len(),
                index <= n,
                v == occupants(slots_of(old(self).sockets)),
                rest@ == slots_of(old(self).sockets).subrange(index as int, n as int),
                top_final.len() >= index,
                top_final.subrange(index as int, top_final.len() as int) == final(rest)@,
                out@.len() == occupied_indices(v, index as int).len(),
                forall|k: int|
                    0 <= k < out@.len() ==> {
                        let i = occupied_indices(v, index as int)[k];
                        &&& (#[trigger] out@[k]).0.index() == i
                        &&& v[i] == Some(*out@[k].1)
                        &&& top_final[i].occupant() == Some(*final(out@[k].1))
                    },
                forall|i: int| 0 <= i < index && v[i] is None ==> top_final[i].occupant() is None,
                forall|i: int|
                    0 <= i < index ==> (#[trigger] top_final[i]).recorded() == slots_of(
                        old(self).sockets,
                    )[i].recorded(),
            decreases n - index,
        {
            proof {
                lemma_occupied_indices_bounded(v, index as int);
            }
            let ghost rest_final = final(rest)@;
            let (head, tail) = rest.split_at_mut(1);
            let ghost head_final = final(head)@;
            let ghost tail_final = final(tail)@;
            assert(rest_final == head_final + tail_final);
            let slot = head.first_mut().unwrap();
            proof {
                assert(head_final.len() == 1);
                assert(head_final[0] == *final(slot));
                assert(rest_final[0] == top_final[index as int]);
                assert(top_final[index as int] == *final(slot));
            }
            let ghost slot_now = *slot;
            let ghost slot_final = *final(slot);
            match slot.inner.as_mut() {
                Some(item) => {
                    let ghost item_final = *final(item);
                    let ghost meta = item.meta;
                    out.push((SocketHandle(index), &mut item.socket));
                    assert(item_final.meta == meta);
                },
                None => {},
            }
            assert(slot_final.recorded() == slot_now.recorded());
            proof {
                let t = top_final.subrange(index as int, top_final.len() as int);
                assert(t == rest_final);
                assert(t.len() == 1 + tail_final.len());
                assert forall|j: int| 0 <= j < tail_final.len() implies top_final[index + 1 + j]
                    == tail_final[j] by {
                    assert(t[1 + j] == rest_final[1 + j]);
                    assert(rest_final[1 + j] == tail_final[j]);
                }
                assert(top_final.subrange(index + 1, top_final.len() as int) =~= tail_final);
            }
            rest = tail;
            index += 1;
        }
        proof {
            lemma_occupied_indices_bounded(v, n as int);
            assert(top_final.len() == n);
            if old(self).well_formed() {
                assert forall|i: int|
                    0 <= i < top_final.len() && (#[trigger] top_final[i]).recorded()
                        is Some implies top_final[i].recorded() == Some(SocketHandle(i as usize)) by {
                    assert(slots_of(old(self).sockets)[i].recorded() == top_final[i].recorded());
                }
            }
        }
        out
    }
}

} // verus!
