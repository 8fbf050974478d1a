use vstd::prelude::*;

use crate::registry::ProxyConfig;

verus! {

/// How many interception records the log keeps.
pub const LOG_CAPACITY: usize = 1000;

/// What became of an intercepted connection or query.
#[derive(Debug, Clone, Copy, PartialEq, Eq, Structural)]
pub enum InterceptionStatus {
    Pending,
    Proxied,
    Failed,
    Direct,
    Timeout,
}

/// One routing decision taken by an interception loop. `intercepted_at` is
/// the capture time in milliseconds since the Unix epoch.
#[derive(Debug, Clone)]
pub struct InterceptedConnection {
    pub id: u64,
    pub domain: Option<String>,
    pub proxy_used: Option<ProxyConfig>,
    pub intercepted_at: u64,
    pub status: InterceptionStatus,
    pub bytes_sent: u64,
    pub bytes_received: u64,
}

impl InterceptedConnection {
    /// A field-by-field copy.
    pub fn cloned(&self) -> (r: InterceptedConnection)
        ensures
            r == *self,
    {
        InterceptedConnection {
            id: self.id,
            domain: match &self.domain {
                Some(d) => Some(d.clone()),
                None => None,
            },
            proxy_used: match &self.proxy_used {
                Some(p) => Some(p.cloned()),
                None => None,
            },
            intercepted_at: self.intercepted_at,
            status: self.status,
            bytes_sent: self.bytes_sent,
            bytes_received: self.bytes_received,
        }
    }
}

/// `log` after appending `e`, the oldest record dropped when the log would
/// grow past its capacity.
pub open spec fn bounded_push(
    log: Seq<InterceptedConnection>,
    e: InterceptedConnection,
) -> Seq<InterceptedConnection> {
    if log.len() + 1 > LOG_CAPACITY {
        log.push(e).drop_first()
    } else {
        log.push(e)
    }
}

/// The log after recording `entries` in order, starting from an empty log.
pub open spec fn log_after(entries: Seq<InterceptedConnection>) -> Seq<InterceptedConnection>
    decreases entries.len(),
{
    if entries.len() == 0 {
        Seq::empty()
    } else {
        bounded_push(log_after(entries.drop_last()), entries.last())
    }
}

/// The bounded, oldest-first log of interception records and the counter
/// that numbers them.
pub struct InterceptionLog {
    entries: Vec<InterceptedConnection>,
    counter: u64,
    history: Ghost<Seq<InterceptedConnection>>,
}

impl View for InterceptionLog {
    type V = Seq<InterceptedConnection>;

    closed spec fn view(&self) -> Seq<InterceptedConnection> {
        self.entries@
    }
}

impl InterceptionLog {
    /// The last id handed out (zero before the first).
    pub closed spec fn last_id(&self) -> u64 {
        self.counter
    }

    /// Every record appended so far, oldest first, evicted ones included.
    pub closed spec fn recorded(&self) -> Seq<InterceptedConnection> {
        self.history@
    }

    /// An empty log whose first id will be 1.
    pub fn new() -> (r: InterceptionLog)
        ensures
            r@.len() == 0,
            r.last_id() == 0,
            r.recorded() == Seq::<InterceptedConnection>::empty(),
            r@ == log_after(r.recorded()),
    {
        InterceptionLog { entries: Vec::new(), counter: 0, history: Ghost(Seq::empty()) }
    }

    /// Hands out the next connection id: one more than the last.
    pub fn next_connection_id(&mut self) -> (r: u64)
        requires
            old(self).last_id() < u64::MAX,
        ensures
            r == old(self).last_id() + 1,
            final(self).last_id() == r,
            final(self)@ == old(self)@,
            final(self).recorded() == old(self).recorded(),
    {
        self.counter = self.counter + 1;
        self.counter
    }

    /// Appends a record; when the log then holds more than its capacity, the
    /// oldest record is dropped.
    pub fn record_intercepted_connection(
        &mut self,
        connection_id: u64,
        domain: String,
        proxy_used: Option<ProxyConfig>,
        status: InterceptionStatus,
        intercepted_at: u64,
    )
        requires
            old(self)@ == log_after(old(self).recorded()),
        ensures
            final(self)@ == bounded_push(
                old(self)@,
                (InterceptedConnection {
                    id: connection_id,
                    domain: Some(domain),
                    proxy_used,
                    intercepted_at,
                    status,
                    bytes_sent: 0,
                    bytes_received: 0,
                }),
            ),
            final(self).last_id() == old(self).last_id(),
            final(self).recorded() == old(self).recorded().push(
                (InterceptedConnection {
                    id: connection_id,
                    domain: Some(domain),
                    proxy_used,
                    intercepted_at,
                    status,
                    bytes_sent: 0,
                    bytes_received: 0,
                }),
            ),
            final(self)@ == log_after(final(self).recorded()),
    {
        let connection = InterceptedConnection {
            id: connection_id,
            domain: Some(domain),
            proxy_used,
            intercepted_at,
            status,
            bytes_sent: 0,
            bytes_received: 0,
        };
        let ghost e = connection;
        self.entries.push(connection);
        if self.entries.len() > LOG_CAPACITY {
            self.entries.remove(0);
        }
        proof {
            let h = self.history@.push(e);
            assert(h.drop_last() =~= self.history@);
            self.history = Ghost(h);
        }
    }

    /// A copy of the records, oldest first.
    pub fn get_intercepted_connections(&self) -> (r: Vec<InterceptedConnection>)
        ensures
            r@ == self@,
    {
        let mut r: Vec<InterceptedConnection> = Vec::new();
        let mut i: usize = 0;
        while i < self.entries.len()
            invariant
                i <= self.entries@.len(),
                r@ == self.entries@.subrange(0, i as int),
            decreases self.entries@.len() - i,
        {
            r.push(self.entries[i].cloned());
            i += 1;
        }
        assert(r@ =~= self.entries@);
        r
    }

    /// The last id handed out (zero before the first).
    pub fn current_id(&self) -> (r: u64)
        ensures
            r == self.last_id(),
    {
        self.counter
    }

    /// How many records the log holds.
    pub fn len(&self) -> (r: usize)
        ensures
            r == self@.len(),
    {
        self.entries.len()
    }
}

/// Whether the interception loops run. Starting twice starts once.
#[derive(Debug)]
pub struct InterceptorControl {
    pub running: bool,
}

impl InterceptorControl {
    /// Stopped.
    pub fn new() -> (r: InterceptorControl)
        ensures
            !r.running,
    {
        InterceptorControl { running: false }
    }

    /// Marks the loops running; true when they were stopped and must now be
    /// started, false when they already run.
    pub fn start(&mut self) -> (r: bool)
        ensures
            r == !old(self).running,
            final(self).running,
    {
        let was = self.running;
        self.running = true;
        !was
    }

    /// Marks the loops stopped; they see it at their next poll.
    pub fn stop(&mut self)
        ensures
            !final(self).running,
    {
        self.running = false;
    }
}

/// Whatever has been recorded, the log holds the most recent records, at
/// most its capacity of them, oldest first; once more than that many have
/// been recorded it holds exactly that many.
pub proof fn lemma_log_keeps_latest(entries: Seq<InterceptedConnection>)
    ensures
        entries.len() <= LOG_CAPACITY ==> log_after(entries) == entries,
        entries.len() > LOG_CAPACITY ==> log_after(entries) == entries.subrange(
            entries.len() - LOG_CAPACITY,
            entries.len() as int,
        ),
        log_after(entries).len() == if entries.len() > LOG_CAPACITY {
            LOG_CAPACITY as nat
        } else {
            entries.len()
        },
    decreases entries.len(),
{
    if entries.len() > 0 {
        let init = entries.drop_last();
        lemma_log_keeps_latest(init);
        let e = entries.last();
        if init.len() + 1 <= LOG_CAPACITY {
            assert(init.push(e) =~= entries);
        } else if init.len() == LOG_CAPACITY {
            assert(init.push(e).drop_first() =~= entries.subrange(
                entries.len() - LOG_CAPACITY,
                entries.len() as int,
            ));
        } else {
            assert(init.subrange(init.len() - LOG_CAPACITY, init.len() as int).push(e).drop_first()
                =~= entries.subrange(entries.len() - LOG_CAPACITY, entries.len() as int));
        }
    }
}

/// A log that only `new` and `record_intercepted_connection` have touched
/// holds the most recent records, oldest first: all of them while they fit,
/// and exactly the last thousand once more have been recorded.
pub proof fn lemma_interception_log_keeps_latest(log: &InterceptionLog)
    requires
        log@ == log_after(log.recorded()),
    ensures
        log.recorded().len() <= LOG_CAPACITY ==> log@ == log.recorded(),
        log.recorded().len() > LOG_CAPACITY ==> log@.len() == LOG_CAPACITY && log@
            == log.recorded().subrange(
            log.recorded().len() - LOG_CAPACITY,
            log.recorded().len() as int,
        ),
{
    lemma_log_keeps_latest(log.recorded());
}

} // verus!
