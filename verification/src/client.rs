//! The registry of connections to peers: at most one per service.
//!
//! A connection is represented by the sending half of the channel to its
//! session. The registry keeps, next to each channel, whether the channel
//! is closed; whoever owns the channels reports that with
//! [`AttestationClient::set_closed`].

use vstd::prelude::*;

verus! {

/// The address under which a peer listens: host and port.
#[derive(Clone, Debug, PartialEq, Eq)]
pub struct ServiceUrl(pub String, pub u16);

impl ServiceUrl {
    /// Whether two addresses are the same.
    pub open spec fn same(self, other: ServiceUrl) -> bool {
        self.0@ == other.0@ && self.1 == other.1
    }

    /// Whether two addresses are the same.
    pub fn matches(&self, other: &ServiceUrl) -> (r: bool)
        ensures
            r == self.same(*other),
    {
        self.0 == other.0 && self.1 == other.1
    }

    /// A copy of the address.
    pub fn duplicate(&self) -> (r: ServiceUrl)
        ensures
            r.same(*self),
            r.0@ == self.0@,
            r.1 == self.1,
    {
        ServiceUrl(self.0.clone(), self.1)
    }
}

/// A connection in the registry.
pub struct Connection<C> {
    pub service: ServiceUrl,
    pub chan: C,
    pub closed: bool,
}

/// What asking for a connection came to.
pub enum OpenState<C, R> {
    /// An open connection was there already.
    Already(C),
    /// The registry took the fresh channel; the receiving half goes to the
    /// session that will serve it.
    Newly(C, R),
    /// Not decided.
    Unknown,
}

/// What a caller that wants a connection has to do.
pub enum ConnectionPlan<C> {
    /// Use this open connection.
    Ready(C),
    /// Start a worker that connects, retrying every
    /// [`CONNECT_RETRY_SECS`] seconds, and runs the session; meanwhile look
    /// again every [`CONNECT_POLL_SECS`] seconds until a connection is
    /// there.
    Connect,
}

/// Seconds between two attempts to reach a peer.
pub const CONNECT_RETRY_SECS: u64 = 1;

/// Seconds between two looks for a connection that is being opened.
pub const CONNECT_POLL_SECS: u64 = 1;

/// How many requests a fresh channel to a session can hold.
pub const PROTOCOL_CHANNEL_SIZE: usize = 100;

/// The registry.
pub struct AttestationClient<C> {
    connections: Vec<Connection<C>>,
}

/// No two connections are to the same service.
pub open spec fn services_distinct<C>(list: Seq<Connection<C>>) -> bool {
    forall|i: int, j: int|
        0 <= i < j < list.len() ==> !(#[trigger] list[i]).service.same((#[trigger] list[j]).service)
}

/// The position of the connection to `svc`, counted from `from`; the
/// length of the list where there is none.
pub open spec fn position_of<C>(list: Seq<Connection<C>>, svc: ServiceUrl, from: int) -> int
    decreases list.len() - from,
{
    if from < 0 || from >= list.len() || list[from].service.same(svc) {
        from
    } else {
        position_of(list, svc, from + 1)
    }
}

/// Where `position_of` ends up.
pub proof fn lemma_position_of<C>(list: Seq<Connection<C>>, svc: ServiceUrl, from: int)
    requires
        0 <= from <= list.len(),
    ensures
        from <= position_of(list, svc, from) <= list.len(),
        forall|k: int|
            from <= k < position_of(list, svc, from) ==> !(#[trigger] list[k]).service.same(svc),
        position_of(list, svc, from) < list.len() ==> list[position_of(
            list,
            svc,
            from,
        )].service.same(svc),
    decreases list.len() - from,
{
    if from < list.len() && !list[from].service.same(svc) {
        lemma_position_of(list, svc, from + 1);
    }
}

impl<C: Clone> AttestationClient<C> {
    /// The connections, oldest first.
    pub closed spec fn connections(&self) -> Seq<Connection<C>> {
        self.connections@
    }

    /// At most one connection per service.
    pub open spec fn wf(&self) -> bool {
        services_distinct(self.connections())
    }

    /// The connection to `svc`, where there is one.
    pub open spec fn entry(&self, svc: ServiceUrl) -> Option<Connection<C>> {
        let p = position_of(self.connections(), svc, 0);
        if p < self.connections().len() {
            Some(self.connections()[p])
        } else {
            None
        }
    }

    /// There is a connection to `svc`, and it is open.
    pub open spec fn is_open(&self, svc: ServiceUrl) -> bool {
        self.entry(svc) matches Some(c) && !c.closed
    }

    /// A registry without connections.
    pub fn new() -> (client: Self)
        ensures
            client.wf(),
            client.connections().len() == 0,
    {
        AttestationClient { connections: Vec::new() }
    }

    fn find(&self, svc: &ServiceUrl) -> (p: usize)
        ensures
            p == position_of(self.connections(), *svc, 0),
            p <= self.connections().len(),
            p < self.connections().len() ==> self.connections()[p as int].service.same(*svc),
    {
        let n = self.connections.len();
        let mut p: usize = 0;
        while p < n
            invariant
                0 <= p <= n,
                n == self.connections@.len(),
                position_of(self.connections@, *svc, 0) == position_of(
                    self.connections@,
                    *svc,
                    p as int,
                ),
            ensures
                0 <= p <= n,
                p == position_of(self.connections@, *svc, 0),
                p < n ==> self.connections@[p as int].service.same(*svc),
            decreases n - p,
        {
            if self.connections[p].service.matches(svc) {
                break ;
            }
            p += 1;
        }
        p
    }

    /// Records whether the channel of the connection to `svc` is closed.
    /// Without such a connection nothing changes.
    pub fn set_closed(&mut self, svc: &ServiceUrl, closed: bool)
        requires
            old(self).wf(),
        ensures
            final(self).wf(),
            final(self).connections().len() == old(self).connections().len(),
            forall|k: int|
                0 <= k < old(self).connections().len() ==> {
                    let before = #[trigger] old(self).connections()[k];
                    let after = final(self).connections()[k];
                    &&& after.service == before.service
                    &&& after.chan == before.chan
                    &&& after.closed == if before.service.same(*svc) {
                        closed
                    } else {
                        before.closed
                    }
                },
    {
        let p = self.find(svc);
        if p < self.connections.len() {
            self.connections[p].closed = closed;
            proof {
                lemma_position_of(old(self).connections(), *svc, 0);
            }
        } else {
            proof {
                lemma_position_of(old(self).connections(), *svc, 0);
            }
        }
    }

    /// The open connection to `svc`, if there is one.
    pub fn conn_already_exists(&self, svc: &ServiceUrl) -> (r: Option<C>)
        ensures
            match r {
                Some(chan) => self.is_open(*svc) && cloned(self.entry(*svc).unwrap().chan, chan),
                None => !self.is_open(*svc),
            },
    {
        let p = self.find(svc);
        if p < self.connections.len() && !self.connections[p].closed {
            Some(self.connections[p].chan.clone())
        } else {
            None
        }
    }

    /// The open connection to `svc` if there is one; otherwise the fresh
    /// channel takes the place of a closed connection, or is added as a
    /// new one, and is handed back with its receiving half.
    pub fn conn_already_exists_or_create<R>(
        &mut self,
        svc: &ServiceUrl,
        fresh: C,
        receiver: R,
    ) -> (r: OpenState<C, R>)
        requires
            old(self).wf(),
        ensures
            final(self).wf(),
            match r {
                OpenState::Already(chan) => {
                    &&& old(self).is_open(*svc)
                    &&& cloned(old(self).entry(*svc).unwrap().chan, chan)
                    &&& final(self).connections() == old(self).connections()
                },
                OpenState::Newly(chan, back) => {
                    &&& !old(self).is_open(*svc)
                    &&& cloned(fresh, chan)
                    &&& back == receiver
                    &&& final(self).is_open(*svc)
                    &&& final(self).entry(*svc).unwrap().chan == fresh
                    &&& final(self).connections() == replaced(
                        old(self).connections(),
                        *svc,
                        final(self).entry(*svc).unwrap(),
                    )
                },
                OpenState::Unknown => false,
            },
    {
        let p = self.find(svc);
        proof {
            lemma_position_of(old(self).connections(), *svc, 0);
        }
        if p < self.connections.len() {
            if !self.connections[p].closed {
                return OpenState::Already(self.connections[p].chan.clone());
            }
            let handed = fresh.clone();
            let service = self.connections[p].service.duplicate();
            self.connections[p] = Connection { service, chan: fresh, closed: false };
            proof {
                lemma_position_same(old(self).connections(), self.connections(), *svc, 0);
            }
            OpenState::Newly(handed, receiver)
        } else {
            let handed = fresh.clone();
            let service = svc.duplicate();
            self.connections.push(Connection { service, chan: fresh, closed: false });
            proof {
                let list = self.connections();
                lemma_position_pushed(old(self).connections(), list, *svc, 0);
            }
            OpenState::Newly(handed, receiver)
        }
    }

    /// What a caller that wants a connection to `svc` has to do: use the
    /// open one, or have one opened.
    pub fn get_conn(&self, svc: &ServiceUrl) -> (plan: ConnectionPlan<C>)
        ensures
            match plan {
                ConnectionPlan::Ready(chan) => self.is_open(*svc) && cloned(
                    self.entry(*svc).unwrap().chan,
                    chan,
                ),
                ConnectionPlan::Connect => !self.is_open(*svc),
            },
    {
        match self.conn_already_exists(svc) {
            Some(chan) => ConnectionPlan::Ready(chan),
            None => ConnectionPlan::Connect,
        }
    }
}

/// The list with the connection to `svc` replaced by `entry`, or with
/// `entry` added at the end where there was none.
pub open spec fn replaced<C>(list: Seq<Connection<C>>, svc: ServiceUrl, entry: Connection<C>) -> Seq<
    Connection<C>,
> {
    let p = position_of(list, svc, 0);
    if p < list.len() {
        list.update(p, entry)
    } else {
        list.push(entry)
    }
}

proof fn lemma_position_same<C>(
    before: Seq<Connection<C>>,
    after: Seq<Connection<C>>,
    svc: ServiceUrl,
    from: int,
)
    requires
        0 <= from <= before.len(),
        before.len() == after.len(),
        forall|k: int|
            0 <= k < before.len() ==> (#[trigger] after[k]).service.same(before[k].service),
    ensures
        position_of(after, svc, from) == position_of(before, svc, from),
    decreases before.len() - from,
{
    if from < before.len() {
        if !before[from].service.same(svc) {
            lemma_position_same(before, after, svc, from + 1);
        }
    }
}

proof fn lemma_position_pushed<C>(
    before: Seq<Connection<C>>,
    after: Seq<Connection<C>>,
    svc: ServiceUrl,
    from: int,
)
    requires
        0 <= from <= before.len(),
        after.len() == before.len() + 1,
        forall|k: int| 0 <= k < before.len() ==> #[trigger] after[k] == before[k],
        after[before.len() as int].service.same(svc),
        position_of(before, svc, from) == before.len(),
    ensures
        position_of(after, svc, from) == before.len(),
    decreases before.len() - from,
{
    if from < before.len() {
        lemma_position_pushed(before, after, svc, from + 1);
    }
}

} // verus!
