use vstd::prelude::*;

use crate::events::ConnectionError;

verus! {

/// Lifecycle of a back-end instance.  `Closing` forbids new sessions
/// but lets existing ones drain; an instance becomes `Closed` when its
/// last session ends.
#[derive(Debug, PartialEq, Eq, Structural, Clone, Copy)]
pub enum BackendStatus {
    Normal,
    Closing,
    Closed,
}

/// One back-end instance: its address (written `ip:port`), its
/// lifecycle status, how many live sessions it carries, and how many
/// connect attempts to it have failed.
#[derive(Debug, Clone)]
pub struct Backend {
    pub address: String,
    pub status: BackendStatus,
    pub active_connections: usize,
    pub failures: usize,
}

impl Backend {
    /// A fresh instance is healthy and carries no session.
    pub fn new(addr: String) -> (b: Backend)
        ensures
            b.address == addr,
            b.status == BackendStatus::Normal,
            b.active_connections == 0,
            b.failures == 0,
    {
        Backend { address: addr, status: BackendStatus::Normal, active_connections: 0, failures: 0 }
    }

    /// Marks the instance as draining: no new session may pick it.
    pub fn set_closing(&mut self)
        ensures
            final(self).status == BackendStatus::Closing,
            final(self).address == old(self).address,
            final(self).active_connections == old(self).active_connections,
            final(self).failures == old(self).failures,
    {
        self.status = BackendStatus::Closing;
    }

    /// An instance may receive a new session iff it is healthy and has
    /// failed fewer than `max_failures` connect attempts.
    pub open spec fn spec_can_open(&self, max_failures: usize) -> bool {
        self.status == BackendStatus::Normal && self.failures < max_failures
    }

    pub fn can_open(&self, max_failures: usize) -> (r: bool)
        ensures
            r == self.spec_can_open(max_failures),
    {
        self.status == BackendStatus::Normal && self.failures < max_failures
    }

    /// Counts a new session on a healthy instance; on a draining or
    /// closed one nothing changes and `None` says so.
    pub fn inc_connections(&mut self) -> (r: Option<usize>)
        requires
            old(self).active_connections < usize::MAX,
        ensures
            final(self).address == old(self).address,
            final(self).status == old(self).status,
            final(self).failures == old(self).failures,
            old(self).status == BackendStatus::Normal ==> {
                &&& final(self).active_connections == old(self).active_connections + 1
                &&& r == Some(final(self).active_connections)
            },
            old(self).status != BackendStatus::Normal ==> {
                &&& final(self).active_connections == old(self).active_connections
                &&& r is None
            },
    {
        if self.status == BackendStatus::Normal {
            self.active_connections = self.active_connections + 1;
            Some(self.active_connections)
        } else {
            None
        }
    }

    /// Counts a session teardown.  A draining instance whose last
    /// session ends becomes `Closed`; `None` means the instance is done
    /// and may be dropped from the table.
    pub fn dec_connections(&mut self) -> (r: Option<usize>)
        ensures
            final(self).address == old(self).address,
            final(self).failures == old(self).failures,
            old(self).active_connections == 0 ==> {
                &&& final(self).status == BackendStatus::Closed
                &&& final(self).active_connections == 0
                &&& r is None
            },
            old(self).active_connections > 0 && old(self).status == BackendStatus::Normal ==> {
                &&& final(self).status == BackendStatus::Normal
                &&& final(self).active_connections == old(self).active_connections - 1
                &&& r == Some(final(self).active_connections)
            },
            old(self).active_connections > 0 && old(self).status == BackendStatus::Closed ==> {
                &&& final(self).status == BackendStatus::Closed
                &&& final(self).active_connections == old(self).active_connections
                &&& r is None
            },
            old(self).active_connections > 0 && old(self).status == BackendStatus::Closing ==> {
                &&& final(self).active_connections == old(self).active_connections - 1
                &&& (final(self).active_connections == 0 ==> final(self).status
                    == BackendStatus::Closed && r is None)
                &&& (final(self).active_connections > 0 ==> final(self).status
                    == BackendStatus::Closing && r == Some(final(self).active_connections))
            },
    {
        if self.active_connections == 0 {
            self.status = BackendStatus::Closed;
            return None;
        }
        match self.status {
            BackendStatus::Normal => {
                self.active_connections = self.active_connections - 1;
                Some(self.active_connections)
            },
            BackendStatus::Closed => None,
            BackendStatus::Closing => {
                self.active_connections = self.active_connections - 1;
                if self.active_connections == 0 {
                    self.status = BackendStatus::Closed;
                    None
                } else {
                    Some(self.active_connections)
                }
            },
        }
    }

    /// Bookkeeping of one connect attempt.  The caller performs the
    /// actual connect only when `can_open` holds and passes the outcome
    /// in `connected`: an unavailable instance is refused untouched, a
    /// successful connect is counted as a session, a failed one as a
    /// failure.
    pub fn try_connect(&mut self, max_failures: usize, connected: bool) -> (r: Result<
        (),
        ConnectionError,
    >)
        requires
            old(self).active_connections < usize::MAX,
        ensures
            final(self).address == old(self).address,
            !old(self).spec_can_open(max_failures) ==> {
                &&& r == Err::<(), ConnectionError>(ConnectionError::NoBackendAvailable)
                &&& *final(self) == *old(self)
            },
            old(self).spec_can_open(max_failures) && connected ==> {
                &&& r == Ok::<(), ConnectionError>(())
                &&& final(self).active_connections == old(self).active_connections + 1
                &&& final(self).status == old(self).status
                &&& final(self).failures == old(self).failures
            },
            old(self).spec_can_open(max_failures) && !connected ==> {
                &&& r == Err::<(), ConnectionError>(ConnectionError::NoBackendAvailable)
                &&& final(self).active_connections == old(self).active_connections
                &&& final(self).status == old(self).status
                &&& final(self).failures == old(self).failures + 1
            },
    {
        if !self.can_open(max_failures) {
            return Err(ConnectionError::NoBackendAvailable);
        }
        if connected {
            self.inc_connections();
            Ok(())
        } else {
            self.failures = self.failures + 1;
            Err(ConnectionError::NoBackendAvailable)
        }
    }
}

} // verus!
