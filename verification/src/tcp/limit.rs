//! The cap on connections served at the same time.

use vstd::prelude::*;

verus! {

/// Why a connection was refused.
#[derive(Clone, Copy, Debug, PartialEq, Eq, Structural)]
pub enum ConnectionError {
    /// As many connections as allowed are already open.
    MaxConnectionsReached,
}

/// The number of open connections after opening one when `active` are open
/// of at most `max`, or the refusal.
pub open spec fn after_open(active: u32, max: u32) -> Result<u32, ConnectionError> {
    if active >= max {
        Err(ConnectionError::MaxConnectionsReached)
    } else {
        Ok((active + 1) as u32)
    }
}

/// The number of open connections after closing one when `active` are
/// open; closing with none open changes nothing.
pub open spec fn after_close(active: u32) -> u32 {
    if active == 0 {
        0
    } else {
        (active - 1) as u32
    }
}

/// Counts open connections against a maximum.
pub struct ConnectionLimit {
    active: u32,
    max: u32,
}

impl ConnectionLimit {
    /// Number of open connections.
    pub closed spec fn active(&self) -> u32 {
        self.active
    }

    /// Most connections allowed at once.
    pub closed spec fn max(&self) -> u32 {
        self.max
    }

    /// No connection open yet.
    pub fn new(max_connections: u32) -> (l: ConnectionLimit)
        ensures
            l.active() == 0,
            l.max() == max_connections,
    {
        ConnectionLimit { active: 0, max: max_connections }
    }

    /// Number of open connections.
    pub fn active_connections(&self) -> (n: u32)
        ensures
            n == self.active(),
    {
        self.active
    }

    /// Counts one more open connection, unless the maximum is reached.
    pub fn open_connection(&mut self) -> (r: Result<(), ConnectionError>)
        ensures
            final(self).max() == old(self).max(),
            match after_open(old(self).active(), old(self).max()) {
                Ok(n) => r is Ok && final(self).active() == n,
                Err(e) => r == Err::<(), ConnectionError>(e) && final(self).active() == old(
                    self,
                ).active(),
            },
    {
        if self.active >= self.max {
            return Err(ConnectionError::MaxConnectionsReached);
        }
        self.active = self.active + 1;
        Ok(())
    }

    /// Counts one connection fewer. Returns `false`, changing nothing, when
    /// none was open.
    pub fn close_connection(&mut self) -> (closed: bool)
        ensures
            final(self).max() == old(self).max(),
            final(self).active() == after_close(old(self).active()),
            closed == (old(self).active() > 0),
    {
        if self.active == 0 {
            return false;
        }
        self.active = self.active - 1;
        true
    }
}

/// Opening never takes the count past the maximum.
pub proof fn law_open_stays_within_max(active: u32, max: u32)
    requires
        active <= max,
    ensures
        match after_open(active, max) {
            Ok(n) => n <= max,
            Err(_) => active == max,
        },
{
}

/// Closing a connection that was just opened gives back the count before.
pub proof fn law_close_undoes_open(active: u32, max: u32)
    requires
        after_open(active, max) is Ok,
    ensures
        after_close(after_open(active, max)->Ok_0) == active,
{
}

} // verus!
