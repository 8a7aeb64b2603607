use vstd::prelude::*;

verus! {

/// A TCP endpoint, reduced to what identifies it.
#[derive(Debug, Clone, Copy, PartialEq, Eq, Structural)]
pub struct TcpSocket {
    pub local_port: u16,
    pub remote_port: u16,
}

/// A UDP endpoint, reduced to what identifies it.
#[derive(Debug, Clone, Copy, PartialEq, Eq, Structural)]
pub struct UdpSocket {
    pub port: u16,
}

/// An ICMP endpoint, reduced to what identifies it.
#[derive(Debug, Clone, Copy, PartialEq, Eq, Structural)]
pub struct IcmpSocket {
    pub ident: u16,
}

/// A raw IP endpoint, reduced to what identifies it.
#[derive(Debug, Clone, Copy, PartialEq, Eq, Structural)]
pub struct RawSocket {
    pub protocol: u8,
}

/// The stored form of a socket: one case per supported kind.
#[derive(Debug, Clone, Copy, PartialEq, Eq, Structural)]
pub enum Socket {
    Tcp(TcpSocket),
    Udp(UdpSocket),
    Icmp(IcmpSocket),
    Raw(RawSocket),
}

/// A concrete socket kind that can be stored as a `Socket` and recovered from one.
pub trait AnySocket: Sized {
    /// The stored form of `self`.
    spec fn upcast_spec(self) -> Socket;

    /// The concrete socket held in `s`, if `s` is of this kind.
    spec fn downcast_spec(s: Socket) -> Option<Self>;

    /// Recovering a socket from its stored form gives it back.
    proof fn lemma_downcast_upcast(self)
        ensures
            Self::downcast_spec(self.upcast_spec()) == Some(self),
    ;

    /// Wrap `self` into the stored form.
    fn upcast(self) -> (r: Socket)
        ensures
            r == self.upcast_spec(),
    ;

    /// Borrow the socket in `s` as this kind, or `None` when `s` is of another kind.
    fn downcast(s: &Socket) -> (r: Option<&Self>)
        ensures
            match Self::downcast_spec(*s) {
                Some(v) => r.is_some() && *r.unwrap() == v,
                None => r.is_none(),
            },
    ;

    /// Borrow the socket in `s` mutably as this kind, or `None` when `s` is of another kind.
    fn downcast_mut(s: &mut Socket) -> (r: Option<&mut Self>)
        ensures
            match Self::downcast_spec(*old(s)) {
                Some(v) => {
                    &&& r.is_some()
                    &&& *r.unwrap() == v
                    &&& *final(s) == (*final(r.unwrap())).upcast_spec()
                },
                None => r.is_none() && *final(s) == *old(s),
            },
    ;
}

impl AnySocket for TcpSocket {
    open spec fn upcast_spec(self) -> Socket {
        Socket::Tcp(self)
    }

    open spec fn downcast_spec(s: Socket) -> Option<Self> {
        match s {
            Socket::Tcp(t) => Some(t),
            _ => None,
        }
    }

    proof fn lemma_downcast_upcast(self) {
    }

    fn upcast(self) -> (r: Socket) {
        Socket::Tcp(self)
    }

    fn downcast(s: &Socket) -> (r: Option<&Self>) {
        match s {
            Socket::Tcp(t) => Some(t),
            _ => None,
        }
    }

    fn downcast_mut(s: &mut Socket) -> (r: Option<&mut Self>) {
        match s {
            Socket::Tcp(t) => Some(t),
            _ => None,
        }
    }
}

impl AnySocket for UdpSocket {
    open spec fn upcast_spec(self) -> Socket {
        Socket::Udp(self)
    }

    open spec fn downcast_spec(s: Socket) -> Option<Self> {
        match s {
            Socket::Udp(t) => Some(t),
            _ => None,
        }
    }

    proof fn lemma_downcast_upcast(self) {
    }

    fn upcast(self) -> (r: Socket) {
        Socket::Udp(self)
    }

    fn downcast(s: &Socket) -> (r: Option<&Self>) {
        match s {
            Socket::Udp(t) => Some(t),
            _ => None,
        }
    }

    fn downcast_mut(s: &mut Socket) -> (r: Option<&mut Self>) {
        match s {
            Socket::Udp(t) => Some(t),
            _ => None,
        }
    }
}

impl AnySocket for IcmpSocket {
    open spec fn upcast_spec(self) -> Socket {
        Socket::Icmp(self)
    }

    open spec fn downcast_spec(s: Socket) -> Option<Self> {
        match s {
            Socket::Icmp(t) => Some(t),
            _ => None,
        }
    }

    proof fn lemma_downcast_upcast(self) {
    }

    fn upcast(self) -> (r: Socket) {
        Socket::Icmp(self)
    }

    fn downcast(s: &Socket) -> (r: Option<&Self>) {
        match s {
            Socket::Icmp(t) => Some(t),
            _ => None,
        }
    }

    fn downcast_mut(s: &mut Socket) -> (r: Option<&mut Self>) {
        match s {
            Socket::Icmp(t) => Some(t),
            _ => None,
        }
    }
}

impl AnySocket for RawSocket {
    open spec fn upcast_spec(self) -> Socket {
        Socket::Raw(self)
    }

    open spec fn downcast_spec(s: Socket) -> Option<Self> {
        match s {
            Socket::Raw(t) => Some(t),
            _ => None,
        }
    }

    proof fn lemma_downcast_upcast(self) {
    }

    fn upcast(self) -> (r: Socket) {
        Socket::Raw(self)
    }

    fn downcast(s: &Socket) -> (r: Option<&Self>) {
        match s {
            Socket::Raw(t) => Some(t),
            _ => None,
        }
    }

    fn downcast_mut(s: &mut Socket) -> (r: Option<&mut Self>) {
        match s {
            Socket::Raw(t) => Some(t),
            _ => None,
        }
    }
}

} // verus!
