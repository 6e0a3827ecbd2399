//! The per-request proxy lifecycle: peer selection, the mandatory Host
//! rewrite, and the state machine a request moves through.

use vstd::prelude::*;
use vstd::string::{StrSliceExecFns, StringExecFns};
use crate::health::{HealthCheckConfig, HealthChecker, next};
use crate::pool::{Backend, BackendPool, Health, PoolError, any_healthy, distinct, pick};

verus! {

/// One request header as name and value.
pub struct Header {
    pub name: String,
    pub value: String,
}

impl View for Header {
    type V = (Seq<char>, Seq<char>);

    open spec fn view(&self) -> (Seq<char>, Seq<char>) {
        (self.name@, self.value@)
    }
}

pub open spec fn header_views(hs: Seq<Header>) -> Seq<(Seq<char>, Seq<char>)> {
    hs.map_values(|h: Header| h@)
}

/// Header names compare without regard to ASCII case.
pub open spec fn is_host_name(name: Seq<char>) -> bool {
    &&& name.len() == 4
    &&& (name[0] == 'h' || name[0] == 'H')
    &&& (name[1] == 'o' || name[1] == 'O')
    &&& (name[2] == 's' || name[2] == 'S')
    &&& (name[3] == 't' || name[3] == 'T')
}

/// The headers other than Host, in their order.
pub open spec fn without_host(hs: Seq<(Seq<char>, Seq<char>)>) -> Seq<(Seq<char>, Seq<char>)>
    decreases hs.len(),
{
    if hs.len() == 0 {
        hs
    } else if is_host_name(hs.last().0) {
        without_host(hs.drop_last())
    } else {
        without_host(hs.drop_last()).push(hs.last())
    }
}

/// The values of the Host headers, in their order.
pub open spec fn host_values(hs: Seq<(Seq<char>, Seq<char>)>) -> Seq<Seq<char>>
    decreases hs.len(),
{
    if hs.len() == 0 {
        Seq::empty()
    } else if is_host_name(hs.last().0) {
        host_values(hs.drop_last()).push(hs.last().1)
    } else {
        host_values(hs.drop_last())
    }
}

/// The outbound headers: every client-supplied Host header dropped, the rest
/// kept in order, and one Host header naming the upstream virtual host added.
pub open spec fn rewritten(hs: Seq<(Seq<char>, Seq<char>)>, host: Seq<char>) -> Seq<(Seq<char>, Seq<char>)> {
    without_host(hs).push((seq!['H', 'o', 's', 't'], host))
}

fn is_host_header(name: &String) -> (r: bool)
    ensures
        r == is_host_name(name@),
{
    let s = name.as_str();
    if s.unicode_len() != 4 {
        return false;
    }
    let c0 = s.get_char(0);
    let c1 = s.get_char(1);
    let c2 = s.get_char(2);
    let c3 = s.get_char(3);
    (c0 == 'h' || c0 == 'H') && (c1 == 'o' || c1 == 'O') && (c2 == 's' || c2 == 'S') && (c3 == 't'
        || c3 == 'T')
}

/// Replaces the Host header with `host`, whatever the client sent.
pub fn rewrite_host(headers: &mut Vec<Header>, host: &str)
    ensures
        header_views(final(headers)@) == rewritten(header_views(old(headers)@), host@),
{
    let ghost before = header_views(headers@);
    let mut out: Vec<Header> = Vec::new();
    let mut i: usize = 0;
    while i < headers.len()
        invariant
            before == header_views(headers@),
            i <= headers@.len(),
            header_views(out@) == without_host(before.subrange(0, i as int)),
        decreases headers@.len() - i,
    {
        let h = &headers[i];
        assert(before.subrange(0, i + 1).drop_last() =~= before.subrange(0, i as int));
        if !is_host_header(&h.name) {
            out.push(Header { name: h.name.clone(), value: h.value.clone() });
            assert(header_views(out@) =~= without_host(before.subrange(0, i as int)).push(before[i as int]));
        }
        i = i + 1;
    }
    assert(before.subrange(0, headers@.len() as int) =~= before);
    proof { reveal_strlit("Host"); }
    let name = String::from_str("Host");
    assert(name@ =~= seq!['H', 'o', 's', 't']);
    out.push(Header { name, value: String::from_str(host) });
    assert(header_views(out@) =~= rewritten(before, host@));
    *headers = out;
}

proof fn lemma_without_host_has_none(hs: Seq<(Seq<char>, Seq<char>)>)
    ensures
        host_values(without_host(hs)) == Seq::<Seq<char>>::empty(),
    decreases hs.len(),
{
    if hs.len() > 0 {
        lemma_without_host_has_none(hs.drop_last());
        let w = without_host(hs.drop_last());
        if !is_host_name(hs.last().0) {
            assert(w.push(hs.last()).drop_last() =~= w);
        }
    }
}

/// Whatever Host headers the client sent, the outbound request carries exactly
/// one, and it names the configured upstream virtual host.
pub proof fn lemma_host_is_upstream(hs: Seq<(Seq<char>, Seq<char>)>, host: Seq<char>)
    ensures
        host_values(rewritten(hs, host)) == seq![host],
{
    lemma_without_host_has_none(hs);
    let w = without_host(hs);
    let r = rewritten(hs, host);
    assert(r.drop_last() =~= w);
    assert(is_host_name(r.last().0));
    assert(host_values(r) =~= seq![host]);
}

/// The phases a request moves through.
#[derive(Clone, Copy, Debug, PartialEq, Eq, Structural)]
pub enum ProxyPhase {
    Accepted,
    PeerSelected,
    RequestRewritten,
    Forwarding,
    Completed,
    Errored,
}

/// What happened while the request was being handled.
#[derive(Clone, Copy, Debug, PartialEq, Eq, Structural)]
pub enum ProxyEvent {
    /// The pool returned a backend.
    PeerFound,
    /// The pool had no backend to return.
    NoBackend,
    /// The outbound request was rewritten.
    Rewritten,
    /// The connection to the backend is open.
    UpstreamConnected,
    /// Connecting to, reading from or writing to the backend failed or timed out.
    UpstreamFailed,
    /// The whole response has been relayed to the client.
    ResponseRelayed,
    /// The client closed the connection.
    ClientClosed,
}

/// The errors a request can end with.
#[derive(Clone, Copy, Debug, PartialEq, Eq, Structural)]
pub enum ProxyError {
    NoBackendAvailable,
    UpstreamConnectFailure,
    UpstreamIOFailure,
}

pub open spec fn is_terminal(p: ProxyPhase) -> bool {
    p == ProxyPhase::Completed || p == ProxyPhase::Errored
}

/// Whether a request in this phase holds an open upstream connection.
pub open spec fn holds_upstream(p: ProxyPhase) -> bool {
    p == ProxyPhase::Forwarding
}

pub open spec fn transition(p: ProxyPhase, e: ProxyEvent) -> ProxyPhase {
    if is_terminal(p) {
        p
    } else if e == ProxyEvent::ClientClosed {
        ProxyPhase::Errored
    } else {
        match (p, e) {
            (ProxyPhase::Accepted, ProxyEvent::PeerFound) => ProxyPhase::PeerSelected,
            (ProxyPhase::Accepted, ProxyEvent::NoBackend) => ProxyPhase::Errored,
            (ProxyPhase::PeerSelected, ProxyEvent::Rewritten) => ProxyPhase::RequestRewritten,
            (ProxyPhase::RequestRewritten, ProxyEvent::UpstreamConnected) => ProxyPhase::Forwarding,
            (ProxyPhase::RequestRewritten, ProxyEvent::UpstreamFailed) => ProxyPhase::Errored,
            (ProxyPhase::Forwarding, ProxyEvent::UpstreamFailed) => ProxyPhase::Errored,
            (ProxyPhase::Forwarding, ProxyEvent::ResponseRelayed) => ProxyPhase::Completed,
            _ => p,
        }
    }
}

/// The error a transition into `Errored` reports to the client, if any: none
/// when the client itself went away.
pub open spec fn failure_of(p: ProxyPhase, e: ProxyEvent) -> Option<ProxyError> {
    if is_terminal(p) || e == ProxyEvent::ClientClosed {
        None
    } else {
        match (p, e) {
            (ProxyPhase::Accepted, ProxyEvent::NoBackend) => Some(ProxyError::NoBackendAvailable),
            (ProxyPhase::RequestRewritten, ProxyEvent::UpstreamFailed) => Some(ProxyError::UpstreamConnectFailure),
            (ProxyPhase::Forwarding, ProxyEvent::UpstreamFailed) => Some(ProxyError::UpstreamIOFailure),
            _ => None,
        }
    }
}

impl ProxyPhase {
    /// The phase after `e`. Terminal phases absorb every event; an event that
    /// does not apply to the phase leaves it as it is.
    pub fn advance(self, e: ProxyEvent) -> (r: ProxyPhase)
        ensures
            r == transition(self, e),
    {
        match self {
            ProxyPhase::Completed | ProxyPhase::Errored => self,
            _ => {
                match e {
                    ProxyEvent::ClientClosed => ProxyPhase::Errored,
                    ProxyEvent::PeerFound => if self == ProxyPhase::Accepted { ProxyPhase::PeerSelected } else { self },
                    ProxyEvent::NoBackend => if self == ProxyPhase::Accepted { ProxyPhase::Errored } else { self },
                    ProxyEvent::Rewritten => if self == ProxyPhase::PeerSelected { ProxyPhase::RequestRewritten } else { self },
                    ProxyEvent::UpstreamConnected => if self == ProxyPhase::RequestRewritten { ProxyPhase::Forwarding } else { self },
                    ProxyEvent::UpstreamFailed => {
                        if self == ProxyPhase::RequestRewritten || self == ProxyPhase::Forwarding {
                            ProxyPhase::Errored
                        } else {
                            self
                        }
                    },
                    ProxyEvent::ResponseRelayed => if self == ProxyPhase::Forwarding { ProxyPhase::Completed } else { self },
                }
            },
        }
    }

    /// The error that `e` makes this request end with, if it does.
    pub fn failure(self, e: ProxyEvent) -> (r: Option<ProxyError>)
        ensures
            r == failure_of(self, e),
    {
        match (self, e) {
            (ProxyPhase::Accepted, ProxyEvent::NoBackend) => Some(ProxyError::NoBackendAvailable),
            (ProxyPhase::RequestRewritten, ProxyEvent::UpstreamFailed) => Some(ProxyError::UpstreamConnectFailure),
            (ProxyPhase::Forwarding, ProxyEvent::UpstreamFailed) => Some(ProxyError::UpstreamIOFailure),
            _ => None,
        }
    }

    pub fn is_terminal(self) -> (r: bool)
        ensures
            r == is_terminal(self),
    {
        self == ProxyPhase::Completed || self == ProxyPhase::Errored
    }
}

impl ProxyError {
    /// The HTTP status the client receives: 503 when no backend could be
    /// chosen, 502 when the chosen backend failed.
    pub fn status_code(self) -> (r: u16)
        ensures
            r == if self == ProxyError::NoBackendAvailable { 503u16 } else { 502u16 },
    {
        match self {
            ProxyError::NoBackendAvailable => 503,
            _ => 502,
        }
    }
}

/// A request ends, and gives up any upstream connection, as soon as its
/// client disconnects.
pub proof fn lemma_client_close_releases(p: ProxyPhase)
    ensures
        is_terminal(transition(p, ProxyEvent::ClientClosed)),
        !holds_upstream(transition(p, ProxyEvent::ClientClosed)),
{
}

/// Finished requests stay finished: no event reopens them or their upstream
/// connection.
pub proof fn lemma_terminal_absorbs(p: ProxyPhase, e: ProxyEvent)
    requires
        is_terminal(p),
    ensures
        transition(p, e) == p,
        !holds_upstream(transition(p, e)),
{
}

/// The routing core shared by every request: the backend pool, the health
/// trackers that write into it, and the upstream virtual host that outbound
/// requests name.
pub struct LB {
    pool: BackendPool,
    checker: HealthChecker,
    host: String,
}

impl LB {
    pub closed spec fn pool(&self) -> BackendPool {
        self.pool
    }

    pub closed spec fn checker(&self) -> HealthChecker {
        self.checker
    }

    pub closed spec fn host(&self) -> Seq<char> {
        self.host@
    }

    pub closed spec fn wf(&self) -> bool {
        &&& self.pool.wf()
        &&& self.checker.wf()
        &&& self.checker.states().len() == self.pool.len()
    }

    /// A core over the given backends, all assumed healthy until probed.
    /// Fails when two addresses are equal.
    pub fn new(addresses: Vec<String>, config: HealthCheckConfig, host: String) -> (r: Result<LB, PoolError>)
        requires
            config.wf(),
        ensures
            r is Err <==> !distinct(addresses@.map_values(|a: String| a@)),
            r is Err ==> r == Err::<LB, PoolError>(PoolError::DuplicateAddress),
            r matches Ok(lb) ==> {
                &&& lb.wf()
                &&& lb.pool().addresses() == addresses@.map_values(|a: String| a@)
                &&& lb.pool().healths() == Seq::new(addresses@.len(), |i: int| Health::Healthy)
                &&& lb.pool().cursor() == 0
                &&& lb.pool().fail_open()
                &&& lb.checker().config() == config
                &&& lb.checker().states() == Seq::new(addresses@.len(), |i: int| (Health::Healthy, 0nat))
                &&& lb.host() == host@
            },
    {
        let n = addresses.len();
        match BackendPool::new(addresses) {
            Ok(pool) => {
                let checker = HealthChecker::new(config, n);
                Ok(LB { pool, checker, host })
            },
            Err(e) => Err(e),
        }
    }

    /// Chooses whether requests still go to a backend when none is healthy.
    pub fn set_fail_open(&mut self, fail_open: bool)
        requires
            old(self).wf(),
        ensures
            final(self).wf(),
            final(self).host() == old(self).host(),
            final(self).checker() == old(self).checker(),
            final(self).pool().addresses() == old(self).pool().addresses(),
            final(self).pool().healths() == old(self).pool().healths(),
            final(self).pool().cursor() == old(self).pool().cursor(),
            final(self).pool().fail_open() == fail_open,
    {
        self.pool.set_fail_open(fail_open);
    }

    /// The state of a request that has just been accepted.
    pub fn new_ctx(&self) -> (r: ProxyPhase)
        ensures
            r == ProxyPhase::Accepted,
    {
        ProxyPhase::Accepted
    }

    /// The address of the backend this request goes to, chosen round robin
    /// among the healthy members, or among all members when none is healthy.
    pub fn upstream_peer(&mut self) -> (r: Result<String, ProxyError>)
        requires
            old(self).wf(),
        ensures
            final(self).wf(),
            final(self).host() == old(self).host(),
            final(self).checker() == old(self).checker(),
            final(self).pool().addresses() == old(self).pool().addresses(),
            final(self).pool().healths() == old(self).pool().healths(),
            final(self).pool().fail_open() == old(self).pool().fail_open(),
            old(self).pool().len() == 0 ==> r == Err::<String, ProxyError>(ProxyError::NoBackendAvailable)
                && final(self).pool().cursor() == old(self).pool().cursor(),
            old(self).pool().len() > 0 ==> final(self).pool().cursor() == (old(self).pool().cursor() + 1) % (
            old(self).pool().len() as int),
            old(self).pool().len() > 0 && (old(self).pool().fail_open() || any_healthy(old(self).pool().healths()))
                ==> (r matches Ok(a) && a@ == old(self).pool().addresses()[pick(
                old(self).pool().healths(),
                old(self).pool().cursor(),
            )]),
            old(self).pool().len() > 0 && !old(self).pool().fail_open() && !any_healthy(old(self).pool().healths())
                ==> r == Err::<String, ProxyError>(ProxyError::NoBackendAvailable),
    {
        match self.pool.select() {
            Ok(a) => Ok(a),
            Err(_) => Err(ProxyError::NoBackendAvailable),
        }
    }

    /// Rewrites the outbound request so that its Host header names the
    /// upstream virtual host.
    pub fn upstream_request_filter(&self, headers: &mut Vec<Header>)
        ensures
            header_views(final(headers)@) == rewritten(header_views(old(headers)@), self.host()),
    {
        rewrite_host(headers, self.host.as_str());
    }

    /// The backends and their health as they stand, for probing.
    pub fn backends(&self) -> (r: Vec<Backend>)
        ensures
            r@.len() == self.pool().len(),
            forall|i: int| 0 <= i < r@.len() ==> (#[trigger] r@[i]).address@ == self.pool().addresses()[i]
                && r@[i].health == self.pool().healths()[i],
    {
        self.pool.members_snapshot()
    }

    pub fn health_check_interval_secs(&self) -> (r: u64)
        ensures
            r == self.checker().config().interval_secs,
    {
        self.checker.interval_secs()
    }

    /// Records one round of probe outcomes, one per backend in pool order, and
    /// publishes every change of health into the pool.
    pub fn record_probe_round(&mut self, outcomes: &Vec<bool>)
        requires
            old(self).wf(),
            outcomes@.len() == old(self).pool().len(),
        ensures
            final(self).wf(),
            final(self).host() == old(self).host(),
            final(self).pool().addresses() == old(self).pool().addresses(),
            final(self).pool().cursor() == old(self).pool().cursor(),
            final(self).pool().fail_open() == old(self).pool().fail_open(),
            final(self).checker().config() == old(self).checker().config(),
            final(self).checker().states().len() == old(self).checker().states().len(),
            forall|i: int| 0 <= i < outcomes@.len() ==> #[trigger] final(self).checker().states()[i] == next(
                old(self).checker().config(),
                old(self).checker().states()[i].0,
                old(self).checker().states()[i].1,
                outcomes@[i],
            ),
            forall|i: int| 0 <= i < outcomes@.len() ==> #[trigger] final(self).pool().healths()[i] == if final(self).checker().states()[i].0
                != old(self).checker().states()[i].0 {
                final(self).checker().states()[i].0
            } else {
                old(self).pool().healths()[i]
            },
    {
        self.checker.apply_round(&mut self.pool, outcomes);
    }
}

} // verus!
