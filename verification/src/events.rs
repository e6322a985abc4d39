use vstd::prelude::*;

verus! {

/// The protocol family a proxy event loop serves.
#[derive(Debug, PartialEq, Eq, Structural, Clone, Copy)]
pub enum Protocol {
    HTTP,
    TLS,
    TCP,
}

/// Interest set of a session: which of the two directions of each of
/// its sockets the event loop should watch.  One variant per
/// combination of front read/write and back read/write.
#[derive(Debug, PartialEq, Eq, Structural, Clone, Copy)]
pub enum RequiredEvents {
    FrontReadBackNone,
    FrontWriteBackNone,
    FrontReadWriteBackNone,
    FrontNoneBackNone,
    FrontReadBackRead,
    FrontWriteBackRead,
    FrontReadWriteBackRead,
    FrontNoneBackRead,
    FrontReadBackWrite,
    FrontWriteBackWrite,
    FrontReadWriteBackWrite,
    FrontNoneBackWrite,
    FrontReadBackReadWrite,
    FrontWriteBackReadWrite,
    FrontReadWriteBackReadWrite,
    FrontNoneBackReadWrite,
}

impl RequiredEvents {
    pub open spec fn spec_front_readable(&self) -> bool {
        match *self {
            RequiredEvents::FrontReadBackNone
            | RequiredEvents::FrontReadWriteBackNone
            | RequiredEvents::FrontReadBackRead
            | RequiredEvents::FrontReadWriteBackRead
            | RequiredEvents::FrontReadBackWrite
            | RequiredEvents::FrontReadWriteBackWrite
            | RequiredEvents::FrontReadBackReadWrite
            | RequiredEvents::FrontReadWriteBackReadWrite => true,
            _ => false,
        }
    }

    pub open spec fn spec_front_writable(&self) -> bool {
        match *self {
            RequiredEvents::FrontWriteBackNone
            | RequiredEvents::FrontReadWriteBackNone
            | RequiredEvents::FrontWriteBackRead
            | RequiredEvents::FrontReadWriteBackRead
            | RequiredEvents::FrontWriteBackWrite
            | RequiredEvents::FrontReadWriteBackWrite
            | RequiredEvents::FrontWriteBackReadWrite
            | RequiredEvents::FrontReadWriteBackReadWrite => true,
            _ => false,
        }
    }

    pub open spec fn spec_back_readable(&self) -> bool {
        match *self {
            RequiredEvents::FrontReadBackRead
            | RequiredEvents::FrontWriteBackRead
            | RequiredEvents::FrontReadWriteBackRead
            | RequiredEvents::FrontNoneBackRead
            | RequiredEvents::FrontReadBackReadWrite
            | RequiredEvents::FrontWriteBackReadWrite
            | RequiredEvents::FrontReadWriteBackReadWrite
            | RequiredEvents::FrontNoneBackReadWrite => true,
            _ => false,
        }
    }

    pub open spec fn spec_back_writable(&self) -> bool {
        match *self {
            RequiredEvents::FrontReadBackWrite
            | RequiredEvents::FrontWriteBackWrite
            | RequiredEvents::FrontReadWriteBackWrite
            | RequiredEvents::FrontNoneBackWrite
            | RequiredEvents::FrontReadBackReadWrite
            | RequiredEvents::FrontWriteBackReadWrite
            | RequiredEvents::FrontReadWriteBackReadWrite
            | RequiredEvents::FrontNoneBackReadWrite => true,
            _ => false,
        }
    }

    pub fn front_readable(&self) -> (r: bool)
        ensures
            r == self.spec_front_readable(),
    {
        match *self {
            RequiredEvents::FrontReadBackNone
            | RequiredEvents::FrontReadWriteBackNone
            | RequiredEvents::FrontReadBackRead
            | RequiredEvents::FrontReadWriteBackRead
            | RequiredEvents::FrontReadBackWrite
            | RequiredEvents::FrontReadWriteBackWrite
            | RequiredEvents::FrontReadBackReadWrite
            | RequiredEvents::FrontReadWriteBackReadWrite => true,
            _ => false,
        }
    }

    pub fn front_writable(&self) -> (r: bool)
        ensures
            r == self.spec_front_writable(),
    {
        match *self {
            RequiredEvents::FrontWriteBackNone
            | RequiredEvents::FrontReadWriteBackNone
            | RequiredEvents::FrontWriteBackRead
            | RequiredEvents::FrontReadWriteBackRead
            | RequiredEvents::FrontWriteBackWrite
            | RequiredEvents::FrontReadWriteBackWrite
            | RequiredEvents::FrontWriteBackReadWrite
            | RequiredEvents::FrontReadWriteBackReadWrite => true,
            _ => false,
        }
    }

    pub fn back_readable(&self) -> (r: bool)
        ensures
            r == self.spec_back_readable(),
    {
        match *self {
            RequiredEvents::FrontReadBackRead
            | RequiredEvents::FrontWriteBackRead
            | RequiredEvents::FrontReadWriteBackRead
            | RequiredEvents::FrontNoneBackRead
            | RequiredEvents::FrontReadBackReadWrite
            | RequiredEvents::FrontWriteBackReadWrite
            | RequiredEvents::FrontReadWriteBackReadWrite
            | RequiredEvents::FrontNoneBackReadWrite => true,
            _ => false,
        }
    }

    pub fn back_writable(&self) -> (r: bool)
        ensures
            r == self.spec_back_writable(),
    {
        match *self {
            RequiredEvents::FrontReadBackWrite
            | RequiredEvents::FrontWriteBackWrite
            | RequiredEvents::FrontReadWriteBackWrite
            | RequiredEvents::FrontNoneBackWrite
            | RequiredEvents::FrontReadBackReadWrite
            | RequiredEvents::FrontWriteBackReadWrite
            | RequiredEvents::FrontReadWriteBackReadWrite
            | RequiredEvents::FrontNoneBackReadWrite => true,
            _ => false,
        }
    }
}

/// What the event loop should do with a session after one of its
/// handlers ran.
#[derive(Debug, PartialEq, Eq, Structural, Clone, Copy)]
pub enum ClientResult {
    CloseClient,
    CloseBackend,
    CloseBothSuccess,
    CloseBothFailure,
    Continue,
    ConnectBackend,
}

/// Why a session could not be connected to a back-end.
#[derive(Debug, PartialEq, Eq, Structural, Clone, Copy)]
pub enum ConnectionError {
    NoHostGiven,
    NoRequestLineGiven,
    HostNotFound,
    NoBackendAvailable,
    ToBeDefined,
}

/// The owner class of a handle identifier, inferred from the range it
/// falls in.
#[derive(Debug, PartialEq, Eq, Structural, Clone, Copy)]
pub enum SocketType {
    Listener,
    FrontClient,
    BackClient,
}

/// The identifier space is split in three consecutive ranges:
/// `[0, max_listeners)` for listeners, then `max_connections` front
/// handles, then `max_connections` back handles.
pub open spec fn spec_socket_type(token: int, max_listeners: int, max_connections: int) -> Option<
    SocketType,
> {
    if 0 <= token < max_listeners {
        Some(SocketType::Listener)
    } else if max_listeners <= token < max_listeners + max_connections {
        Some(SocketType::FrontClient)
    } else if max_listeners + max_connections <= token < max_listeners + 2 * max_connections {
        Some(SocketType::BackClient)
    } else {
        None
    }
}

/// Classifies a handle identifier by the range it falls in.
pub fn socket_type(token: usize, max_listeners: usize, max_connections: usize) -> (r: Option<
    SocketType,
>)
    ensures
        r == spec_socket_type(token as int, max_listeners as int, max_connections as int),
{
    if token < max_listeners {
        Some(SocketType::Listener)
    } else if token - max_listeners < max_connections {
        Some(SocketType::FrontClient)
    } else if token - max_listeners - max_connections < max_connections {
        Some(SocketType::BackClient)
    } else {
        None
    }
}

} // verus!
