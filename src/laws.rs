use vstd::prelude::*;

use crate::set::{
    add_index, add_model, all_occupied, first_vacant, get_result, lemma_first_vacant_exists,
    lemma_occupied_indices_bounded, lookup, occupied_indices, remove_model, SocketSetError,
};
use crate::socket::{AnySocket, Socket, TcpSocket, UdpSocket};

verus! {

/// When some slot is vacant, the slot that adding fills is the lowest vacant one.
pub proof fn lemma_add_index_first_vacant(v: Seq<Option<Socket>>, growable: bool)
    requires
        !all_occupied(v),
    ensures
        first_vacant(v, add_index(v, growable).unwrap()),
{
    let k = choose|k: int| 0 <= k < v.len() && !(v[k] is Some);
    lemma_first_vacant_exists(v, k);
}

/// A socket that was just added is found again under the handle it was given,
/// as the same value and the same kind.
pub proof fn lemma_add_then_get<T: AnySocket>(v: Seq<Option<Socket>>, growable: bool, x: T)
    requires
        add_index(v, growable) is Some,
    ensures
        get_result::<T>(add_model(v, growable, x.upcast_spec()), add_index(v, growable).unwrap())
            == Ok::<T, SocketSetError>(x),
{
    if !all_occupied(v) {
        lemma_add_index_first_vacant(v, growable);
    }
    x.lemma_downcast_upcast();
}

/// A handle whose slot is past the end of the storage or holds nothing never
/// yields a socket: the lookup fails with `OutOfBounds` or `Vacant`.
pub proof fn lemma_unoccupied_get<T: AnySocket>(v: Seq<Option<Socket>>, i: int)
    requires
        !(0 <= i < v.len()) || v[i] is None,
    ensures
        get_result::<T>(v, i) == Err::<T, SocketSetError>(SocketSetError::OutOfBounds)
            || get_result::<T>(v, i) == Err::<T, SocketSetError>(SocketSetError::Vacant),
{
}

/// After a socket is removed, its handle names a vacant slot.
pub proof fn lemma_remove_then_get<T: AnySocket>(v: Seq<Option<Socket>>, i: int)
    requires
        lookup(v, i) is Ok,
    ensures
        get_result::<T>(remove_model(v, i), i) == Err::<T, SocketSetError>(SocketSetError::Vacant),
{
}

/// A TCP socket that was just added cannot be borrowed as a UDP socket.
pub proof fn lemma_add_tcp_get_udp(v: Seq<Option<Socket>>, growable: bool, x: TcpSocket)
    requires
        add_index(v, growable) is Some,
    ensures
        get_result::<UdpSocket>(
            add_model(v, growable, x.upcast_spec()),
            add_index(v, growable).unwrap(),
        ) == Err::<UdpSocket, SocketSetError>(SocketSetError::WrongType),
{
    if !all_occupied(v) {
        lemma_add_index_first_vacant(v, growable);
    }
}

/// The slots after adding each of `socks` in turn.
pub open spec fn add_all(v: Seq<Option<Socket>>, growable: bool, socks: Seq<Socket>) -> Seq<
    Option<Socket>,
>
    decreases socks.len(),
{
    if socks.len() == 0 {
        v
    } else {
        add_model(add_all(v, growable, socks.drop_last()), growable, socks.last())
    }
}

/// `n` vacant slots.
pub open spec fn vacant_slots(n: nat) -> Seq<Option<Socket>> {
    Seq::new(n, |j: int| None)
}

/// Fixed storage of `n` vacant slots accepts `n` sockets, each in the next slot
/// up, and refuses the one after them.
pub proof fn lemma_fixed_exhaustion(n: nat, socks: Seq<Socket>)
    requires
        socks.len() == n,
    ensures
        forall|k: int|
            0 <= k < n ==> add_index(#[trigger] add_all(vacant_slots(n), false, socks.take(k)), false)
                == Some(k),
        add_index(add_all(vacant_slots(n), false, socks), false) is None,
{
    assert forall|k: int| 0 <= k <= n implies add_all(vacant_slots(n), false, socks.take(k))
        =~= Seq::new(n, |j: int| if j < k { Some(socks[j]) } else { None }) by {
        lemma_fill_prefix(n, socks, k);
    }
    assert forall|k: int| 0 <= k < n implies add_index(
        #[trigger] add_all(vacant_slots(n), false, socks.take(k)),
        false,
    ) == Some(k) by {
        let w = add_all(vacant_slots(n), false, socks.take(k));
        assert(first_vacant(w, k));
        lemma_add_index_first_vacant(w, false);
        crate::set::lemma_first_vacant_unique(w, k, add_index(w, false).unwrap());
    }
    assert(socks.take(n as int) =~= socks);
}

/// Adding the first `k` of `socks` to `n` vacant fixed slots fills slots `0..k`
/// in order.
proof fn lemma_fill_prefix(n: nat, socks: Seq<Socket>, k: int)
    requires
        socks.len() == n,
        0 <= k <= n,
    ensures
        add_all(vacant_slots(n), false, socks.take(k)) =~= Seq::new(
            n,
            |j: int| if j < k { Some(socks[j]) } else { None },
        ),
    decreases k,
{
    if k > 0 {
        lemma_fill_prefix(n, socks, k - 1);
        assert(socks.take(k).drop_last() =~= socks.take(k - 1));
        let w = add_all(vacant_slots(n), false, socks.take(k - 1));
        assert(first_vacant(w, k - 1));
        assert(!all_occupied(w));
        lemma_add_index_first_vacant(w, false);
        crate::set::lemma_first_vacant_unique(w, k - 1, add_index(w, false).unwrap());
    }
}

/// Growable storage always accepts a socket, and gains a slot exactly when none
/// was vacant.
pub proof fn lemma_growable_add(v: Seq<Option<Socket>>, s: Socket)
    ensures
        add_index(v, true) is Some,
        add_model(v, true, s).len() == if all_occupied(v) {
            v.len() + 1
        } else {
            v.len()
        },
{
    if !all_occupied(v) {
        lemma_add_index_first_vacant(v, true);
    }
}

/// The handles that iteration visits are the occupied slots, each once, in
/// strictly ascending order.
pub proof fn lemma_iteration(v: Seq<Option<Socket>>)
    ensures
        forall|a: int, b: int|
            0 <= a < b < occupied_indices(v, v.len() as int).len() ==> occupied_indices(
                v,
                v.len() as int,
            )[a] < occupied_indices(v, v.len() as int)[b],
        forall|k: int|
            0 <= k < occupied_indices(v, v.len() as int).len() ==> {
                let i = #[trigger] occupied_indices(v, v.len() as int)[k];
                &&& 0 <= i < v.len()
                &&& v[i] is Some
            },
        forall|i: int|
            0 <= i < v.len() && v[i] is Some ==> occupied_indices(v, v.len() as int).contains(i),
{
    lemma_occupied_indices_bounded(v, v.len() as int);
    lemma_occupied_indices_order(v, v.len() as int);
}

proof fn lemma_occupied_indices_order(v: Seq<Option<Socket>>, n: int)
    requires
        0 <= n <= v.len(),
    ensures
        forall|a: int, b: int|
            0 <= a < b < occupied_indices(v, n).len() ==> occupied_indices(v, n)[a]
                < occupied_indices(v, n)[b],
        forall|i: int| 0 <= i < n && v[i] is Some ==> occupied_indices(v, n).contains(i),
    decreases n,
{
    if n > 0 {
        lemma_occupied_indices_order(v, n - 1);
        lemma_occupied_indices_bounded(v, n - 1);
        let p = occupied_indices(v, n - 1);
        if v[n - 1] is Some {
            assert forall|i: int| 0 <= i < n && v[i] is Some implies occupied_indices(
                v,
                n,
            ).contains(i) by {
                if i < n - 1 {
                    assert(p.contains(i));
                    let k = choose|k: int| 0 <= k < p.len() && p[k] == i;
                    assert(p.push(n - 1)[k] == i);
                } else {
                    assert(p.push(n - 1)[p.len() as int] == i);
                }
            }
        }
    }
}

/// Removing a socket makes iteration visit one item fewer.
pub proof fn lemma_remove_one_fewer(v: Seq<Option<Socket>>, i: int)
    requires
        lookup(v, i) is Ok,
    ensures
        occupied_indices(remove_model(v, i), v.len() as int).len() == occupied_indices(
            v,
            v.len() as int,
        ).len() - 1,
{
    lemma_update_count(v, i, v.len() as int);
}

/// The slots after removing, in turn, the sockets that handles of indices `hs` name.
pub open spec fn remove_all(v: Seq<Option<Socket>>, hs: Seq<int>) -> Seq<Option<Socket>>
    decreases hs.len(),
{
    if hs.len() == 0 {
        v
    } else {
        remove_model(remove_all(v, hs.drop_last()), hs.last())
    }
}

/// Whether each removal in turn, of the sockets that handles of indices `hs`
/// name, finds a socket.
pub open spec fn removals_succeed(v: Seq<Option<Socket>>, hs: Seq<int>) -> bool
    decreases hs.len(),
{
    hs.len() == 0 || (removals_succeed(v, hs.drop_last()) && lookup(
        remove_all(v, hs.drop_last()),
        hs.last(),
    ) is Ok)
}

/// After `k` successful removals, iteration visits `k` items fewer.
pub proof fn lemma_remove_k_fewer(v: Seq<Option<Socket>>, hs: Seq<int>)
    requires
        removals_succeed(v, hs),
    ensures
        remove_all(v, hs).len() == v.len(),
        occupied_indices(remove_all(v, hs), v.len() as int).len() == occupied_indices(
            v,
            v.len() as int,
        ).len() - hs.len(),
    decreases hs.len(),
{
    if hs.len() > 0 {
        lemma_remove_k_fewer(v, hs.drop_last());
        lemma_remove_one_fewer(remove_all(v, hs.drop_last()), hs.last());
    }
}

proof fn lemma_update_count(v: Seq<Option<Socket>>, i: int, n: int)
    requires
        0 <= i < v.len(),
        v[i] is Some,
        0 <= n <= v.len(),
    ensures
        occupied_indices(v.update(i, None), n).len() == occupied_indices(v, n).len() - (if i < n {
            1int
        } else {
            0int
        }),
    decreases n,
{
    if n > 0 {
        lemma_update_count(v, i, n - 1);
    }
}

/// One step of a socket set's history, as the model sees it.
pub enum SetStep {
    /// `add` with this socket.
    Add(Socket),
    /// `remove` with a handle of this index.
    Remove(int),
}

/// The slots, and the indices of the handles that `add` returned, after
/// replaying `steps` on slots `v` with no handle yet returned.
pub open spec fn replay(v: Seq<Option<Socket>>, growable: bool, steps: Seq<SetStep>) -> (Seq<
    Option<Socket>,
>, Set<int>)
    decreases steps.len(),
{
    if steps.len() == 0 {
        (v, Set::empty())
    } else {
        let (w, issued) = replay(v, growable, steps.drop_last());
        match steps.last() {
            SetStep::Add(s) => match add_index(w, growable) {
                Some(i) => (add_model(w, growable, s), issued.insert(i)),
                None => (w, issued),
            },
            SetStep::Remove(i) => (remove_model(w, i), issued),
        }
    }
}

/// On a set that started with every slot vacant, a handle that `add` never
/// returned names no socket: the lookup fails with `OutOfBounds` or `Vacant`,
/// whatever kind is asked for.
pub proof fn lemma_never_issued_get<T: AnySocket>(
    n: nat,
    growable: bool,
    steps: Seq<SetStep>,
    i: int,
)
    requires
        !replay(vacant_slots(n), growable, steps).1.contains(i),
    ensures
        get_result::<T>(replay(vacant_slots(n), growable, steps).0, i) == Err::<T, SocketSetError>(
            SocketSetError::OutOfBounds,
        ) || get_result::<T>(replay(vacant_slots(n), growable, steps).0, i) == Err::<
            T,
            SocketSetError,
        >(SocketSetError::Vacant),
{
    lemma_occupied_were_issued(n, growable, steps);
}

/// Every occupied slot of a replayed history was returned by `add`.
proof fn lemma_occupied_were_issued(n: nat, growable: bool, steps: Seq<SetStep>)
    ensures
        forall|j: int|
            0 <= j < replay(vacant_slots(n), growable, steps).0.len() && (#[trigger] replay(
                vacant_slots(n),
                growable,
                steps,
            ).0[j]) is Some ==> replay(vacant_slots(n), growable, steps).1.contains(j),
    decreases steps.len(),
{
    if steps.len() > 0 {
        lemma_occupied_were_issued(n, growable, steps.drop_last());
        let w = replay(vacant_slots(n), growable, steps.drop_last()).0;
        if !all_occupied(w) {
            lemma_add_index_first_vacant(w, growable);
        }
    }
}

} // verus!
