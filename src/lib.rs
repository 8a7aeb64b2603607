//! A registry of network sockets held in caller-chosen storage and reached
//! through typed handles.
mod handle;
mod laws;
mod set;
mod socket;
mod storage;

pub use handle::{decimal, digit_char, SocketHandle};
pub use laws::{
    add_all, lemma_add_index_first_vacant, lemma_never_issued_get, replay, SetStep, lemma_add_tcp_get_udp, lemma_add_then_get, lemma_fixed_exhaustion,
    lemma_growable_add, lemma_iteration, lemma_remove_k_fewer, lemma_remove_one_fewer, lemma_remove_then_get, remove_all, removals_succeed,
    lemma_unoccupied_get, vacant_slots,
};
pub use set::{
    add_index, add_model, all_occupied, all_vacant, first_vacant, get_result, lemma_first_vacant_exists, lemma_first_vacant_unique, lemma_occupied_indices_bounded, lookup,
    occupants, occupied_indices, remove_model, SocketSet, SocketSetError,
};
pub use socket::{AnySocket, IcmpSocket, RawSocket, Socket, TcpSocket, UdpSocket};
pub use storage::{is_owned, slots_of, SocketStorage};
