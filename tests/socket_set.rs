use managed::ManagedSlice;
use socket_set::{
    IcmpSocket, RawSocket, Socket, SocketHandle, SocketSet, SocketSetError, SocketStorage,
    TcpSocket, UdpSocket,
};

fn tcp(port: u16) -> TcpSocket {
    TcpSocket { local_port: port, remote_port: 80 }
}

fn udp(port: u16) -> UdpSocket {
    UdpSocket { port }
}

fn storage(n: usize) -> Vec<SocketStorage> {
    (0..n).map(|_| SocketStorage::empty()).collect()
}

#[test]
fn fixed_capacity_two_scenario() {
    let mut buf = storage(2);
    let mut set = SocketSet::new_fixed(&mut buf[..]);
    let a = set.add(tcp(1)).unwrap();
    assert_eq!(a.slot(), 0);
    let b = set.add(udp(2)).unwrap();
    assert_eq!(b.slot(), 1);
    assert_eq!(set.add(tcp(3)), Err(SocketSetError::Full));
    assert_eq!(set.remove(a), Ok(Socket::Tcp(tcp(1))));
    let d = set.add(udp(4)).unwrap();
    assert_eq!(d, a);
    assert_eq!(set.get::<TcpSocket>(a).err(), Some(SocketSetError::WrongType));
    assert_eq!(set.get::<UdpSocket>(d).unwrap(), &udp(4));
}

#[test]
fn add_then_get_returns_same_socket() {
    let mut set = SocketSet::new(ManagedSlice::Owned(Vec::new()));
    let h = set.add(tcp(7)).unwrap();
    assert_eq!(set.get::<TcpSocket>(h).unwrap(), &tcp(7));
    assert_eq!(set.try_get::<TcpSocket>(h).unwrap(), &tcp(7));
    let r = set.add(RawSocket { protocol: 17 }).unwrap();
    assert_eq!(set.get::<RawSocket>(r).unwrap(), &RawSocket { protocol: 17 });
    let i = set.add(IcmpSocket { ident: 9 }).unwrap();
    assert_eq!(set.get::<IcmpSocket>(i).unwrap(), &IcmpSocket { ident: 9 });
}

#[test]
fn unknown_handle_is_out_of_bounds_or_vacant() {
    let mut buf = storage(3);
    let mut set = SocketSet::new(ManagedSlice::Borrowed(&mut buf[..]));
    let h = set.add(udp(1)).unwrap();
    let vacant = SocketHandle::default();
    assert_eq!(vacant, h);
    set.remove(h).unwrap();
    assert_eq!(set.get::<UdpSocket>(vacant).err(), Some(SocketSetError::Vacant));
    let mut owned = SocketSet::new(ManagedSlice::Owned(Vec::new()));
    assert_eq!(owned.get::<UdpSocket>(vacant).err(), Some(SocketSetError::OutOfBounds));
    assert_eq!(owned.get_mut::<UdpSocket>(vacant).err(), Some(SocketSetError::OutOfBounds));
    assert_eq!(owned.remove(vacant), Err(SocketSetError::OutOfBounds));
}

#[test]
fn removed_handle_is_vacant() {
    let mut set = SocketSet::new(ManagedSlice::Owned(Vec::new()));
    let h = set.add(udp(5)).unwrap();
    assert_eq!(set.try_remove(h), Ok(Socket::Udp(udp(5))));
    assert_eq!(set.get::<UdpSocket>(h).err(), Some(SocketSetError::Vacant));
    assert_eq!(set.try_remove(h), Err(SocketSetError::Vacant));
    assert_eq!(set.try_get_mut::<UdpSocket>(h).err(), Some(SocketSetError::Vacant));
}

#[test]
fn tcp_socket_is_not_udp() {
    let mut set = SocketSet::new(ManagedSlice::Owned(Vec::new()));
    let h = set.add(tcp(22)).unwrap();
    assert_eq!(set.get::<UdpSocket>(h).err(), Some(SocketSetError::WrongType));
    assert_eq!(set.get_mut::<UdpSocket>(h).err(), Some(SocketSetError::WrongType));
    assert_eq!(set.get::<TcpSocket>(h).unwrap(), &tcp(22));
}

#[test]
fn fixed_storage_refuses_when_full() {
    let mut buf = storage(4);
    let mut set = SocketSet::new(ManagedSlice::Borrowed(&mut buf[..]));
    assert!(!set.is_growable());
    for k in 0..4 {
        assert_eq!(set.add(udp(k as u16)).unwrap().slot(), k);
    }
    assert_eq!(set.add(udp(9)), Err(SocketSetError::Full));
    assert_eq!(set.capacity(), 4);
}

#[test]
fn empty_fixed_storage_is_full() {
    let mut buf = storage(0);
    let mut set = SocketSet::new(ManagedSlice::Borrowed(&mut buf[..]));
    assert_eq!(set.add(tcp(1)), Err(SocketSetError::Full));
    assert!(set.iter().is_empty());
}

#[test]
fn growable_storage_grows_only_when_full() {
    let mut set = SocketSet::new_growable(Vec::new());
    assert!(set.is_growable());
    assert_eq!(set.capacity(), 0);
    let a = set.add(udp(1)).unwrap();
    let b = set.add(udp(2)).unwrap();
    assert_eq!(set.capacity(), 2);
    assert_eq!(b.slot(), 1);
    set.remove(a).unwrap();
    let c = set.add(udp(3)).unwrap();
    assert_eq!(c.slot(), 0);
    assert_eq!(set.capacity(), 2);
    let d = set.add(udp(4)).unwrap();
    assert_eq!(d.slot(), 2);
    assert_eq!(set.capacity(), 3);
}

#[test]
fn iteration_visits_remaining_sockets_in_order() {
    let mut set = SocketSet::new(ManagedSlice::Owned(Vec::new()));
    let mut handles = Vec::new();
    for k in 0..5u16 {
        handles.push(set.add(udp(k)).unwrap());
    }
    set.remove(handles[1]).unwrap();
    set.remove(handles[3]).unwrap();
    let items = set.iter();
    assert_eq!(items.len(), 3);
    let slots: Vec<usize> = items.iter().map(|(h, _)| h.slot()).collect();
    assert_eq!(slots, vec![0, 2, 4]);
    assert_eq!(items[1].1, &Socket::Udp(udp(2)));
}

#[test]
fn get_mut_changes_the_stored_socket() {
    let mut buf = storage(1);
    let mut set = SocketSet::new(ManagedSlice::Borrowed(&mut buf[..]));
    let h = set.add(tcp(10)).unwrap();
    set.get_mut::<TcpSocket>(h).unwrap().remote_port = 443;
    assert_eq!(set.get::<TcpSocket>(h).unwrap().remote_port, 443);
    set.try_get_mut::<TcpSocket>(h).unwrap().local_port = 11;
    assert_eq!(set.remove(h), Ok(Socket::Tcp(TcpSocket { local_port: 11, remote_port: 443 })));
}

#[test]
fn handles_order_by_index() {
    let mut set = SocketSet::new(ManagedSlice::Owned(Vec::new()));
    let a = set.add(tcp(1)).unwrap();
    let b = set.add(tcp(2)).unwrap();
    assert!(a < b);
    assert_ne!(a, b);
}

#[test]
fn error_messages() {
    assert_eq!(SocketSetError::OutOfBounds.message(), "handle is out of bounds");
    assert_eq!(SocketSetError::Vacant.message(), "handle does not refer to a valid socket");
    assert_eq!(SocketSetError::WrongType.message(), "handle refers to a socket of a wrong type");
    assert_eq!(SocketSetError::Full.message(), "socket storage is full");
}

#[test]
fn storage_slots_start_vacant() {
    assert!(SocketStorage::empty().is_vacant());
    assert!(SocketStorage::default().is_vacant());
}

#[test]
fn iter_mut_changes_every_occupied_socket() {
    let mut buf = storage(3);
    let mut set = SocketSet::new(ManagedSlice::Borrowed(&mut buf[..]));
    let a = set.add(udp(1)).unwrap();
    let b = set.add(tcp(2)).unwrap();
    let c = set.add(udp(3)).unwrap();
    set.remove(b).unwrap();
    {
        let items = set.iter_mut();
        assert_eq!(items.len(), 2);
        assert_eq!(items[0].0, a);
        assert_eq!(items[1].0, c);
        for (_, socket) in items {
            if let Socket::Udp(u) = socket {
                u.port += 100;
            }
        }
    }
    assert_eq!(set.get::<UdpSocket>(a).unwrap(), &udp(101));
    assert_eq!(set.get::<UdpSocket>(c).unwrap(), &udp(103));
    assert_eq!(set.get::<TcpSocket>(b).err(), Some(SocketSetError::Vacant));
}

#[test]
fn handle_text_form() {
    let mut set = SocketSet::new(ManagedSlice::Owned(Vec::new()));
    let mut last = set.add(udp(0)).unwrap();
    assert_eq!(last.to_text(), "#0");
    for k in 1..13u16 {
        last = set.add(udp(k)).unwrap();
    }
    assert_eq!(last.slot(), 12);
    assert_eq!(last.to_text(), "#12");
}

#[test]
fn fresh_growable_set_is_empty() {
    let set = SocketSet::new_growable(Vec::new());
    assert!(set.iter().is_empty());
    assert_eq!(set.capacity(), 0);
    assert!(set.is_growable());
}

#[test]
fn fresh_fixed_set_has_vacant_slots() {
    let mut buf = storage(3);
    let set = SocketSet::new_fixed(&mut buf[..]);
    assert!(set.iter().is_empty());
    assert_eq!(set.capacity(), 3);
    assert!(!set.is_growable());
    assert_eq!(set.get::<UdpSocket>(SocketHandle::default()).err(), Some(SocketSetError::Vacant));
}
