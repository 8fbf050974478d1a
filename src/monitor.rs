use std::collections::HashMap;

use vstd::prelude::*;

use crate::socks5::SocketAddress;

verus! {

broadcast use vstd::std_specs::hash::group_hash_axioms;

/// How long the process-name cache stays fresh, in milliseconds.
pub const PROCESS_CACHE_TTL_MS: u64 = 5000;

/// A change seen between two snapshots of the connection table.
#[derive(Debug, Clone, Copy, PartialEq, Eq, Structural)]
pub enum ConnectionEvent {
    New,
    Updated,
    Closed,
    Established,
}

/// One entry of a snapshot of the operating system's connections.
/// `last_updated` is in milliseconds since the Unix epoch.
#[derive(Debug, Clone)]
pub struct NetworkConnection {
    pub local_addr: SocketAddress,
    pub remote_addr: Option<SocketAddress>,
    pub protocol: String,
    pub state: String,
    pub process_name: String,
    pub process_id: u32,
    pub bytes_sent: u64,
    pub bytes_received: u64,
    pub last_updated: u64,
    pub interface: String,
}

/// The cache that a process list gives: each pair in order, a later pair
/// replacing an earlier one with the same id.
pub open spec fn cache_of(processes: Seq<(u32, String)>) -> Map<u32, String>
    decreases processes.len(),
{
    if processes.len() == 0 {
        Map::empty()
    } else {
        cache_of(processes.drop_last()).insert(processes.last().0, processes.last().1)
    }
}

/// Names of running processes by id, refreshed from the process list.
pub struct LowLevelNetworkMonitor {
    process_cache: HashMap<u32, String>,
    last_cache_update: u64,
}

impl LowLevelNetworkMonitor {
    /// The cached names.
    pub closed spec fn names(&self) -> Map<u32, String> {
        self.process_cache@
    }

    /// When the cache was last refreshed (milliseconds since the epoch).
    pub closed spec fn refreshed_at(&self) -> u64 {
        self.last_cache_update
    }

    /// A monitor with an empty cache, never refreshed.
    pub fn new() -> (r: LowLevelNetworkMonitor)
        ensures
            r.names() == Map::<u32, String>::empty(),
            r.refreshed_at() == 0,
    {
        LowLevelNetworkMonitor { process_cache: HashMap::new(), last_cache_update: 0 }
    }

    /// Whether the cache is older than its time to live at `now`.
    pub fn cache_is_stale(&self, now: u64) -> (r: bool)
        ensures
            r == (now >= self.refreshed_at() && now - self.refreshed_at() > PROCESS_CACHE_TTL_MS),
    {
        now >= self.last_cache_update && now - self.last_cache_update > PROCESS_CACHE_TTL_MS
    }

    /// Replaces the cache with these (id, name) pairs, read at `now`; a later
    /// pair wins over an earlier one with the same id.
    pub fn update_process_cache(&mut self, processes: Vec<(u32, String)>, now: u64)
        ensures
            final(self).refreshed_at() == now,
            final(self).names() == cache_of(processes@),
    {
        let mut cache: HashMap<u32, String> = HashMap::new();
        let mut i: usize = 0;
        proof {
            assert(processes@.subrange(0, 0) =~= Seq::<(u32, String)>::empty());
            assert(cache@ =~= Map::<u32, String>::empty());
        }
        while i < processes.len()
            invariant
                i <= processes@.len(),
                cache@ == cache_of(processes@.subrange(0, i as int)),
            decreases processes@.len() - i,
        {
            let pid = processes[i].0;
            let name = processes[i].1.clone();
            cache.insert(pid, name);
            proof {
                let s1 = processes@.subrange(0, i + 1);
                assert(s1.drop_last() =~= processes@.subrange(0, i as int));
                assert(s1.last() == processes@[i as int]);
            }
            i += 1;
        }
        proof {
            assert(processes@.subrange(0, processes@.len() as int) =~= processes@);
        }
        self.process_cache = cache;
        self.last_cache_update = now;
    }

    /// The cached name of process `pid`, or "Unknown".
    pub fn get_process_name(&self, pid: u32) -> (r: String)
        ensures
            self.names().contains_key(pid) ==> r@ == self.names()[pid]@,
            !self.names().contains_key(pid) ==> r@ == "Unknown"@,
    {
        match self.process_cache.get(&pid) {
            Some(name) => name.clone(),
            None => String::from_str("Unknown"),
        }
    }
}

} // verus!
