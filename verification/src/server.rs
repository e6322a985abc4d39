use vstd::prelude::*;

use crate::backend::{Backend, BackendStatus};
use crate::events::ConnectionError;
use crate::session::Client;
use crate::slab::{count_some, lemma_count_some_le, lemma_count_some_update, Slab};
use vstd::string::StringExecFns;

verus! {

// ---------------------------------------------------------------------------
// The TCP proxy server: listeners, sessions and back-end accounting
// share one identifier space, split in three ranges.  The server is
// the decision half of the event loop: socket work happens outside and
// its outcomes are passed in.
// ---------------------------------------------------------------------------

/// A bound listener: the application it feeds and the port it answers.
pub struct ApplicationListener {
    pub app_id: String,
    pub port: u16,
}

/// The back-end instances of one application.
pub struct AppBackends {
    pub app_id: String,
    pub backends: Vec<Backend>,
}

/// A live session and the instance it is accounted to.
pub struct ClientSlot {
    pub session: Client,
    pub app_id: String,
    pub backend_addr: String,
}

/// What the identifier of a readiness event designates.
#[derive(Debug, PartialEq, Eq, Structural, Clone, Copy)]
pub enum Dispatch {
    /// A live listener: accept.
    Accept,
    /// A live session's front socket; the value is the session token.
    FrontIo(usize),
    /// A live session's back socket; the value is the session token.
    BackIo(usize),
    /// Nothing lives at this identifier any more.
    Stale,
}

// ---------------------------------------------------------------------------
// Accounting, spec side.
// ---------------------------------------------------------------------------

pub open spec fn sum_backends(bs: Seq<Backend>) -> nat
    decreases bs.len(),
{
    if bs.len() == 0 {
        0
    } else {
        sum_backends(bs.drop_last()) + bs.last().active_connections as nat
    }
}

pub open spec fn total_active(apps: Seq<AppBackends>) -> nat
    decreases apps.len(),
{
    if apps.len() == 0 {
        0
    } else {
        total_active(apps.drop_last()) + sum_backends(apps.last().backends@)
    }
}

/// Does this slot hold a session accounted to `(app, addr)`?
pub open spec fn slot_weight(c: Option<ClientSlot>, app: Seq<char>, addr: Seq<char>) -> nat {
    match c {
        Some(cs) => if cs.app_id@ == app && cs.backend_addr@ == addr {
            1nat
        } else {
            0nat
        },
        None => 0nat,
    }
}

/// How many live sessions are accounted to `(app, addr)`.
pub open spec fn bound_count(cs: Seq<Option<ClientSlot>>, app: Seq<char>, addr: Seq<char>) -> nat
    decreases cs.len(),
{
    if cs.len() == 0 {
        0
    } else {
        bound_count(cs.drop_last(), app, addr) + slot_weight(cs.last(), app, addr)
    }
}

pub open spec fn addrs_unique(bs: Seq<Backend>) -> bool {
    forall|i: int, j: int|
        0 <= i < j < bs.len() ==> (#[trigger] bs[i].address@) != (#[trigger] bs[j].address@)
}

pub open spec fn apps_unique(apps: Seq<AppBackends>) -> bool {
    forall|i: int, j: int|
        0 <= i < j < apps.len() ==> (#[trigger] apps[i].app_id@) != (#[trigger] apps[j].app_id@)
}

pub open spec fn has_addr(bs: Seq<Backend>, addr: Seq<char>) -> bool {
    exists|b: int| 0 <= b < bs.len() && (#[trigger] bs[b].address@) == addr
}

pub open spec fn has_binding(apps: Seq<AppBackends>, app: Seq<char>, addr: Seq<char>) -> bool {
    exists|a: int|
        0 <= a < apps.len() && (#[trigger] apps[a].app_id@) == app && has_addr(
            apps[a].backends@,
            addr,
        )
}

/// The instances a new session may pick: healthy and under the
/// failure threshold, in table order.
pub open spec fn healthy(bs: Seq<Backend>, max_failures: usize) -> Seq<Backend>
    decreases bs.len(),
{
    if bs.len() == 0 {
        Seq::empty()
    } else {
        healthy(bs.drop_last(), max_failures) + (if bs.last().spec_can_open(max_failures) {
            seq![bs.last()]
        } else {
            Seq::empty()
        })
    }
}

// ---------------------------------------------------------------------------
// Accounting lemmas.
// ---------------------------------------------------------------------------

pub proof fn lemma_sum_backends_update(bs: Seq<Backend>, i: int, b2: Backend)
    requires
        0 <= i < bs.len(),
    ensures
        sum_backends(bs.update(i, b2)) == sum_backends(bs) - bs[i].active_connections
            + b2.active_connections,
    decreases bs.len(),
{
    let s2 = bs.update(i, b2);
    if i == bs.len() - 1 {
        assert(s2.drop_last() =~= bs.drop_last());
    } else {
        assert(s2.drop_last() =~= bs.drop_last().update(i, b2));
        lemma_sum_backends_update(bs.drop_last(), i, b2);
    }
}

pub proof fn lemma_sum_backends_remove(bs: Seq<Backend>, i: int)
    requires
        0 <= i < bs.len(),
        bs[i].active_connections == 0,
    ensures
        sum_backends(bs.remove(i)) == sum_backends(bs),
    decreases bs.len(),
{
    let s2 = bs.remove(i);
    if i == bs.len() - 1 {
        assert(s2 =~= bs.drop_last());
    } else {
        assert(s2.drop_last() =~= bs.drop_last().remove(i));
        assert(s2.last() == bs.last());
        lemma_sum_backends_remove(bs.drop_last(), i);
    }
}

pub proof fn lemma_sum_backends_push(bs: Seq<Backend>, b: Backend)
    ensures
        sum_backends(bs.push(b)) == sum_backends(bs) + b.active_connections,
{
    assert(bs.push(b).drop_last() =~= bs);
}

pub proof fn lemma_total_update(apps: Seq<AppBackends>, a: int, e2: AppBackends)
    requires
        0 <= a < apps.len(),
    ensures
        total_active(apps.update(a, e2)) == total_active(apps) - sum_backends(apps[a].backends@)
            + sum_backends(e2.backends@),
    decreases apps.len(),
{
    let s2 = apps.update(a, e2);
    if a == apps.len() - 1 {
        assert(s2.drop_last() =~= apps.drop_last());
    } else {
        assert(s2.drop_last() =~= apps.drop_last().update(a, e2));
        lemma_total_update(apps.drop_last(), a, e2);
    }
}

pub proof fn lemma_total_push(apps: Seq<AppBackends>, e: AppBackends)
    ensures
        total_active(apps.push(e)) == total_active(apps) + sum_backends(e.backends@),
{
    assert(apps.push(e).drop_last() =~= apps);
}

pub proof fn lemma_bound_update(
    cs: Seq<Option<ClientSlot>>,
    i: int,
    v: Option<ClientSlot>,
    app: Seq<char>,
    addr: Seq<char>,
)
    requires
        0 <= i < cs.len(),
    ensures
        bound_count(cs.update(i, v), app, addr) == bound_count(cs, app, addr) - slot_weight(
            cs[i],
            app,
            addr,
        ) + slot_weight(v, app, addr),
    decreases cs.len(),
{
    let s2 = cs.update(i, v);
    if i == cs.len() - 1 {
        assert(s2.drop_last() =~= cs.drop_last());
    } else {
        assert(s2.drop_last() =~= cs.drop_last().update(i, v));
        lemma_bound_update(cs.drop_last(), i, v, app, addr);
    }
}

/// A pair no session is accounted to has no bound slot.
pub proof fn lemma_bound_zero(
    cs: Seq<Option<ClientSlot>>,
    app: Seq<char>,
    addr: Seq<char>,
    i: int,
)
    requires
        0 <= i < cs.len(),
        bound_count(cs, app, addr) == 0,
    ensures
        slot_weight(cs[i], app, addr) == 0,
    decreases cs.len(),
{
    if i < cs.len() - 1 {
        lemma_bound_zero(cs.drop_last(), app, addr, i);
    }
}

/// A bound slot makes the pair's count positive.
pub proof fn lemma_bound_pos(cs: Seq<Option<ClientSlot>>, app: Seq<char>, addr: Seq<char>, i: int)
    requires
        0 <= i < cs.len(),
        slot_weight(cs[i], app, addr) == 1,
    ensures
        bound_count(cs, app, addr) >= 1,
    decreases cs.len(),
{
    if i < cs.len() - 1 {
        lemma_bound_pos(cs.drop_last(), app, addr, i);
    }
}

// ---------------------------------------------------------------------------
// Exec lookups.
// ---------------------------------------------------------------------------

fn find_app(apps: &Vec<AppBackends>, app_id: &String) -> (r: Option<usize>)
    ensures
        match r {
            Some(a) => a < apps@.len() && apps@[a as int].app_id@ == app_id@,
            None => forall|m: int| 0 <= m < apps@.len() ==> (#[trigger] apps@[m].app_id@) != app_id@,
        },
{
    let mut a: usize = 0;
    while a < apps.len()
        invariant
            0 <= a <= apps@.len(),
            forall|m: int| 0 <= m < a ==> (#[trigger] apps@[m].app_id@) != app_id@,
        decreases apps@.len() - a,
    {
        if apps[a].app_id == *app_id {
            return Some(a);
        }
        a = a + 1;
    }
    None
}

fn find_backend(bs: &Vec<Backend>, addr: &String) -> (r: Option<usize>)
    ensures
        match r {
            Some(b) => b < bs@.len() && bs@[b as int].address@ == addr@,
            None => forall|m: int| 0 <= m < bs@.len() ==> (#[trigger] bs@[m].address@) != addr@,
        },
{
    let mut b: usize = 0;
    while b < bs.len()
        invariant
            0 <= b <= bs@.len(),
            forall|m: int| 0 <= m < b ==> (#[trigger] bs@[m].address@) != addr@,
        decreases bs@.len() - b,
    {
        if bs[b].address == *addr {
            return Some(b);
        }
        b = b + 1;
    }
    None
}

fn find_front(fronts: &Vec<(String, usize)>, app_id: &String) -> (r: Option<usize>)
    ensures
        match r {
            Some(i) => i < fronts@.len() && fronts@[i as int].0@ == app_id@,
            None => forall|m: int| 0 <= m < fronts@.len() ==> (#[trigger] fronts@[m].0@) != app_id@,
        },
{
    let mut i: usize = 0;
    while i < fronts.len()
        invariant
            0 <= i <= fronts@.len(),
            forall|m: int| 0 <= m < i ==> (#[trigger] fronts@[m].0@) != app_id@,
        decreases fronts@.len() - i,
    {
        if fronts[i].0 == *app_id {
            return Some(i);
        }
        i = i + 1;
    }
    None
}

// ---------------------------------------------------------------------------
// The front bindings: which listener serves an application.
// ---------------------------------------------------------------------------

pub open spec fn fronts_token_from(fs: Seq<(String, usize)>, app: Seq<char>, i: int) -> Option<
    usize,
>
    decreases fs.len() - i,
{
    if i < 0 || i >= fs.len() {
        None
    } else if fs[i].0@ == app {
        Some(fs[i].1)
    } else {
        fronts_token_from(fs, app, i + 1)
    }
}

/// The listener token bound to an application, if any.
pub open spec fn fronts_token(fs: Seq<(String, usize)>, app: Seq<char>) -> Option<usize> {
    fronts_token_from(fs, app, 0)
}

pub open spec fn fronts_unique(fs: Seq<(String, usize)>) -> bool {
    forall|i: int, j: int| 0 <= i < j < fs.len() ==> (#[trigger] fs[i].0@) != (#[trigger] fs[j].0@)
}

proof fn lemma_fronts_found(fs: Seq<(String, usize)>, app: Seq<char>, i: int, k: int)
    requires
        0 <= k <= i < fs.len(),
        fs[i].0@ == app,
        forall|m: int| k <= m < i ==> fs[m].0@ != app,
    ensures
        fronts_token_from(fs, app, k) == Some(fs[i].1),
    decreases i - k,
{
    if k < i {
        lemma_fronts_found(fs, app, i, k + 1);
    }
}

proof fn lemma_fronts_none(fs: Seq<(String, usize)>, app: Seq<char>, k: int)
    requires
        0 <= k,
        forall|m: int| k <= m < fs.len() ==> fs[m].0@ != app,
    ensures
        fronts_token_from(fs, app, k) is None,
    decreases fs.len() - k,
{
    if k < fs.len() {
        lemma_fronts_none(fs, app, k + 1);
    }
}

proof fn lemma_fronts_update(fs: Seq<(String, usize)>, i: int, e: (String, usize), q: Seq<char>, k: int)
    requires
        0 <= k <= fs.len(),
        0 <= i < fs.len(),
        fs[i].0@ == e.0@,
        q != e.0@,
    ensures
        fronts_token_from(fs.update(i, e), q, k) == fronts_token_from(fs, q, k),
    decreases fs.len() - k,
{
    if k < fs.len() {
        lemma_fronts_update(fs, i, e, q, k + 1);
    }
}

proof fn lemma_fronts_push(fs: Seq<(String, usize)>, e: (String, usize), q: Seq<char>, k: int)
    requires
        0 <= k <= fs.len(),
        q != e.0@,
    ensures
        fronts_token_from(fs.push(e), q, k) == fronts_token_from(fs, q, k),
    decreases fs.len() - k,
{
    let new = fs.push(e);
    if k < fs.len() {
        assert(new[k] == fs[k]);
        lemma_fronts_push(fs, e, q, k + 1);
    } else {
        assert(new[k] == e);
        assert(fronts_token_from(new, q, k + 1) is None);
    }
}

proof fn lemma_fronts_remove_shift(fs: Seq<(String, usize)>, i: int, q: Seq<char>, k: int)
    requires
        0 <= i < fs.len(),
        i <= k <= fs.len() - 1,
    ensures
        fronts_token_from(fs.remove(i), q, k) == fronts_token_from(fs, q, k + 1),
    decreases fs.len() - 1 - k,
{
    let new = fs.remove(i);
    if k < new.len() {
        lemma_fronts_remove_shift(fs, i, q, k + 1);
        assert(new[k] == fs[k + 1]);
    }
}

proof fn lemma_fronts_remove(fs: Seq<(String, usize)>, i: int, q: Seq<char>, k: int)
    requires
        0 <= k <= i < fs.len(),
        q != fs[i].0@,
    ensures
        fronts_token_from(fs.remove(i), q, k) == fronts_token_from(fs, q, k),
    decreases i - k,
{
    let new = fs.remove(i);
    if k == i {
        lemma_fronts_remove_shift(fs, i, q, i);
    } else {
        assert(new[k] == fs[k]);
        lemma_fronts_remove(fs, i, q, k + 1);
    }
}

// ---------------------------------------------------------------------------
// The server.
// ---------------------------------------------------------------------------

pub struct Server {
    pub fronts: Vec<(String, usize)>,
    pub instances: Vec<AppBackends>,
    pub listeners: Slab<ApplicationListener>,
    pub clients: Slab<ClientSlot>,
    pub backend: Slab<usize>,
    pub max_listeners: usize,
    pub max_connections: usize,
    pub max_failures: usize,
    pub live: usize,
    pub accept_rejected: usize,
    pub accepting: bool,
    pub stopping: bool,
}

impl Server {
    /// Every session sits in the slab once, its two identifiers lie in
    /// their ranges and resolve back to it, and each instance's
    /// `active_connections` counts exactly the sessions accounted to
    /// it.
    pub open spec fn wf(&self) -> bool {
        let ml = self.max_listeners as int;
        let mc = self.max_connections as int;
        &&& self.listeners@.len() == ml
        &&& self.clients@.len() == mc
        &&& self.backend@.len() == mc
        &&& ml + 2 * mc <= usize::MAX
        &&& self.live == count_some(self.clients@)
        &&& fronts_unique(self.fronts@)
        &&& apps_unique(self.instances@)
        &&& forall|a: int|
            0 <= a < self.instances@.len() ==> addrs_unique(#[trigger] self.instances@[a].backends@)
        &&& forall|a: int, b: int|
            0 <= a < self.instances@.len() && 0 <= b < self.instances@[a].backends@.len() ==> (
            #[trigger] self.instances@[a].backends@[b]).status != BackendStatus::Closed
        &&& forall|a: int, b: int|
            0 <= a < self.instances@.len() && 0 <= b < self.instances@[a].backends@.len() ==> (
            #[trigger] self.instances@[a].backends@[b]).active_connections as nat == bound_count(
                self.clients@,
                self.instances@[a].app_id@,
                self.instances@[a].backends@[b].address@,
            )
        &&& total_active(self.instances@) == count_some(self.clients@)
        &&& forall|ci: int|
            0 <= ci < mc ==> ((#[trigger] self.clients@[ci]) matches Some(cs) ==> {
                &&& cs.session.wf()
                &&& cs.session.token == Some((ml + ci) as usize)
                &&& cs.session.backend_token matches Some(bt) && ml + mc <= bt < ml + 2 * mc
                    && self.backend@[bt - ml - mc] == Some((ml + ci) as usize)
                &&& has_binding(self.instances@, cs.app_id@, cs.backend_addr@)
            })
        &&& forall|bi: int|
            0 <= bi < mc ==> ((#[trigger] self.backend@[bi]) matches Some(t) ==> {
                &&& ml <= t < ml + mc
                &&& self.clients@[t - ml] matches Some(cs) && cs.session.backend_token == Some(
                    (ml + mc + bi) as usize,
                )
            })
    }

    /// A fresh server: empty tables, empty slabs, accepting.
    pub fn new(max_listeners: usize, max_connections: usize, max_failures: usize) -> (s: Server)
        requires
            max_listeners + 2 * max_connections <= usize::MAX,
        ensures
            s.wf(),
            s.max_listeners == max_listeners,
            s.max_connections == max_connections,
            s.max_failures == max_failures,
            s.live == 0,
            s.accept_rejected == 0,
            s.accepting,
            !s.stopping,
            s.instances@.len() == 0,
            s.fronts@.len() == 0,
            count_some(s.listeners@) == 0,
    {
        Server {
            fronts: Vec::new(),
            instances: Vec::new(),
            listeners: Slab::new(max_listeners),
            clients: Slab::new(max_connections),
            backend: Slab::new(max_connections),
            max_listeners,
            max_connections,
            max_failures,
            live: 0,
            accept_rejected: 0,
            accepting: true,
            stopping: false,
        }
    }

    /// Classifies a readiness event's identifier: a live listener
    /// accepts; a front or back identifier resolves to its session; a
    /// freed identifier is stale.
    pub fn dispatch(&self, token: usize) -> (r: Dispatch)
        requires
            self.wf(),
        ensures
            ({
                let ml = self.max_listeners as int;
                let mc = self.max_connections as int;
                if token < ml {
                    r == (if self.listeners@[token as int] is Some {
                        Dispatch::Accept
                    } else {
                        Dispatch::Stale
                    })
                } else if token < ml + mc {
                    r == (if self.clients@[token - ml] is Some {
                        Dispatch::FrontIo(token)
                    } else {
                        Dispatch::Stale
                    })
                } else if token < ml + 2 * mc {
                    match self.backend@[token - ml - mc] {
                        Some(t) => r == Dispatch::BackIo(t),
                        None => r == Dispatch::Stale,
                    }
                } else {
                    r == Dispatch::Stale
                }
            }),
    {
        if token < self.max_listeners {
            if self.listeners.contains(token) {
                Dispatch::Accept
            } else {
                Dispatch::Stale
            }
        } else if token - self.max_listeners < self.max_connections {
            if self.clients.contains(token - self.max_listeners) {
                Dispatch::FrontIo(token)
            } else {
                Dispatch::Stale
            }
        } else if token - self.max_listeners - self.max_connections < self.max_connections {
            match self.backend.get(token - self.max_listeners - self.max_connections) {
                Some(t) => Dispatch::BackIo(*t),
                None => Dispatch::Stale,
            }
        } else {
            Dispatch::Stale
        }
    }

    /// Room check at accept time: with the session slab exhausted the
    /// freshly accepted socket is to be closed on the spot, and the
    /// rejection is counted.
    pub fn try_admit(&mut self) -> (r: bool)
        requires
            old(self).wf(),
            old(self).accept_rejected < usize::MAX,
        ensures
            final(self).wf(),
            r == (old(self).accepting && (exists|i: int|
                0 <= i < old(self).clients@.len() && old(self).clients@[i] is None) && (exists|
                i: int,
            |
                0 <= i < old(self).backend@.len() && old(self).backend@[i] is None)),
            r ==> *final(self) == *old(self),
            !r ==> *final(self) == (Server { accept_rejected: (old(self).accept_rejected + 1) as usize,
            ..*old(self) }),
    {
        if !self.accepting {
            self.accept_rejected = self.accept_rejected + 1;
            return false;
        }
        match self.clients.free_index() {
            None => {
                self.accept_rejected = self.accept_rejected + 1;
                false
            },
            Some(i) => {
                proof {
                    assert(self.clients@[i as int] is None);
                }
                match self.backend.free_index() {
                    None => {
                        self.accept_rejected = self.accept_rejected + 1;
                        false
                    },
                    Some(j) => {
                        proof {
                            assert(self.backend@[j as int] is None);
                        }
                        true
                    },
                }
            },
        }
    }

    /// Takes a listener into service once its socket is bound; `bound`
    /// is the outcome of the bind.  `None` when the bind failed or no
    /// listener slot is free.
    pub fn add_tcp_front(&mut self, port: u16, app_id: &String, bound: bool) -> (r: Option<usize>)
        requires
            old(self).wf(),
        ensures
            final(self).wf(),
            final(self).instances == old(self).instances,
            final(self).clients == old(self).clients,
            final(self).backend == old(self).backend,
            final(self).live == old(self).live,
            final(self).accepting == old(self).accepting,
            final(self).stopping == old(self).stopping,
            r is None ==> *final(self) == *old(self),
            r is Some <==> (bound && exists|i: int|
                0 <= i < old(self).listeners@.len() && old(self).listeners@[i] is None),
            r matches Some(tok) ==> {
                &&& fronts_token(final(self).fronts@, app_id@) == Some(tok)
                &&& forall|q: Seq<char>|
                    q != app_id@ ==> #[trigger] fronts_token(final(self).fronts@, q)
                        == fronts_token(old(self).fronts@, q)
            },
            match r {
                Some(tok) => {
                    &&& bound
                    &&& tok < old(self).max_listeners
                    &&& final(self).listeners@ == old(self).listeners@.update(
                        tok as int,
                        Some(
                            ApplicationListener {
                                app_id: final(self).listeners@[tok as int]->Some_0.app_id,
                                port,
                            },
                        ),
                    )
                    &&& final(self).listeners@[tok as int] matches Some(l) && l.app_id@ == app_id@
                        && l.port == port
                },
                None => final(self).listeners == old(self).listeners,
            },
    {
        if !bound {
            return None;
        }
        match self.listeners.free_index() {
            None => None,
            Some(tok) => {
                let ghost old_fs = self.fronts@;
                self.listeners.put_at(tok, ApplicationListener { app_id: app_id.clone(), port });
                match find_front(&self.fronts, app_id) {
                    Some(i) => {
                        let _ = self.fronts.remove(i);
                        self.fronts.insert(i, (app_id.clone(), tok));
                        proof {
                            let new_fs = self.fronts@;
                            let e = new_fs[i as int];
                            assert(new_fs =~= old_fs.update(i as int, e));
                            assert forall|a: int, b: int|
                                0 <= a < b < new_fs.len() implies (#[trigger] new_fs[a].0@) != (
                            #[trigger] new_fs[b].0@) by {
                                assert(old_fs[a].0@ != old_fs[b].0@);
                            }
                            lemma_fronts_found(new_fs, app_id@, i as int, 0);
                            assert forall|q: Seq<char>| q != app_id@ implies #[trigger] fronts_token(
                                new_fs,
                                q,
                            ) == fronts_token(old_fs, q) by {
                                lemma_fronts_update(old_fs, i as int, e, q, 0);
                            }
                        }
                    },
                    None => {
                        self.fronts.push((app_id.clone(), tok));
                        proof {
                            let new_fs = self.fronts@;
                            let last = new_fs.len() - 1;
                            assert forall|a: int, b: int|
                                0 <= a < b < new_fs.len() implies (#[trigger] new_fs[a].0@) != (
                            #[trigger] new_fs[b].0@) by {
                                if b < last {
                                    assert(old_fs[a].0@ != old_fs[b].0@);
                                } else {
                                    assert(old_fs[a].0@ != app_id@);
                                }
                            }
                            lemma_fronts_found(new_fs, app_id@, last, 0);
                            assert forall|q: Seq<char>| q != app_id@ implies #[trigger] fronts_token(
                                new_fs,
                                q,
                            ) == fronts_token(old_fs, q) by {
                                lemma_fronts_push(old_fs, new_fs[last], q, 0);
                            }
                        }
                    },
                }
                Some(tok)
            },
        }
    }

    /// Takes the application's listener out of service and drops its
    /// front binding; the returned token tells the caller which
    /// registration to drop and which socket to close.
    pub fn remove_tcp_front(&mut self, app_id: &String) -> (r: Option<usize>)
        requires
            old(self).wf(),
        ensures
            final(self).wf(),
            final(self).instances == old(self).instances,
            final(self).clients == old(self).clients,
            final(self).backend == old(self).backend,
            final(self).live == old(self).live,
            final(self).accepting == old(self).accepting,
            final(self).stopping == old(self).stopping,
            final(self).accept_rejected == old(self).accept_rejected,
            r is None ==> *final(self) == *old(self),
            r is Some <==> (fronts_token(old(self).fronts@, app_id@) matches Some(tok) && tok < old(
                self,
            ).max_listeners && old(self).listeners@[tok as int] is Some),
            r matches Some(tok) ==> {
                &&& fronts_token(old(self).fronts@, app_id@) == Some(tok)
                &&& final(self).listeners@ == old(self).listeners@.update(tok as int, None)
                &&& fronts_token(final(self).fronts@, app_id@) is None
                &&& forall|q: Seq<char>|
                    q != app_id@ ==> #[trigger] fronts_token(final(self).fronts@, q)
                        == fronts_token(old(self).fronts@, q)
            },
    {
        let ghost old_fs = self.fronts@;
        match find_front(&self.fronts, app_id) {
            Some(i) => {
                proof {
                    lemma_fronts_found(old_fs, app_id@, i as int, 0);
                }
                let tok = self.fronts[i].1;
                if self.listeners.contains(tok) {
                    let _ = self.listeners.take_at(tok);
                    let _ = self.fronts.remove(i);
                    proof {
                        let new_fs = self.fronts@;
                        assert(new_fs == old_fs.remove(i as int));
                        assert forall|a: int, b: int|
                            0 <= a < b < new_fs.len() implies (#[trigger] new_fs[a].0@) != (
                        #[trigger] new_fs[b].0@) by {
                            if b < i as int {
                                assert(new_fs[a] == old_fs[a] && new_fs[b] == old_fs[b]);
                            } else if a < i as int {
                                assert(new_fs[a] == old_fs[a] && new_fs[b] == old_fs[b + 1]);
                            } else {
                                assert(new_fs[a] == old_fs[a + 1] && new_fs[b] == old_fs[b + 1]);
                            }
                        }
                        assert forall|m: int| 0 <= m < new_fs.len() implies (
                        #[trigger] new_fs[m].0@) != app_id@ by {
                            if m < i as int {
                                assert(new_fs[m] == old_fs[m]);
                            } else {
                                assert(new_fs[m] == old_fs[m + 1]);
                                assert(old_fs[i as int].0@ != old_fs[m + 1].0@);
                            }
                        }
                        lemma_fronts_none(new_fs, app_id@, 0);
                        assert forall|q: Seq<char>| q != app_id@ implies #[trigger] fronts_token(
                            new_fs,
                            q,
                        ) == fronts_token(old_fs, q) by {
                            lemma_fronts_remove(old_fs, i as int, q, 0);
                        }
                    }
                    Some(tok)
                } else {
                    None
                }
            },
            None => {
                proof {
                    lemma_fronts_none(old_fs, app_id@, 0);
                }
                None
            },
        }
    }
}

/// A back-end record as `AddInstance` creates it: healthy, idle,
/// unblemished.
pub open spec fn fresh_backend(addr: Seq<char>, b: Backend) -> bool {
    &&& b.address@ == addr
    &&& b.status == BackendStatus::Normal
    &&& b.active_connections == 0
    &&& b.failures == 0
}

/// A pair nothing is bound to counts zero.
pub proof fn lemma_bound_none(cs: Seq<Option<ClientSlot>>, app: Seq<char>, addr: Seq<char>)
    requires
        forall|i: int| 0 <= i < cs.len() ==> slot_weight(#[trigger] cs[i], app, addr) == 0,
    ensures
        bound_count(cs, app, addr) == 0,
    decreases cs.len(),
{
    if cs.len() > 0 {
        assert(forall|i: int|
            0 <= i < cs.drop_last().len() ==> slot_weight(#[trigger] cs.drop_last()[i], app, addr)
                == 0);
        lemma_bound_none(cs.drop_last(), app, addr);
    }
}

/// Everything the selection offers is fit to open, and sits in the
/// table.
pub proof fn lemma_healthy_member(bs: Seq<Backend>, max_failures: usize, k: int)
    requires
        0 <= k < healthy(bs, max_failures).len(),
    ensures
        healthy(bs, max_failures)[k].spec_can_open(max_failures),
        exists|i: int| 0 <= i < bs.len() && (#[trigger] bs[i]) == healthy(bs, max_failures)[k],
    decreases bs.len(),
{
    if bs.len() > 0 {
        let hs = healthy(bs, max_failures);
        let pre = healthy(bs.drop_last(), max_failures);
        if k < pre.len() {
            lemma_healthy_member(bs.drop_last(), max_failures, k);
            let i = choose|i: int|
                0 <= i < bs.drop_last().len() && (#[trigger] bs.drop_last()[i]) == pre[k];
            assert(bs[i] == pre[k]);
        } else {
            assert(hs[k] == bs.last());
            assert(bs[bs.len() - 1] == bs.last());
        }
    }
}

/// A draining or failed-out instance is never offered.
pub proof fn lemma_healthy_none(bs: Seq<Backend>, max_failures: usize)
    requires
        forall|i: int| 0 <= i < bs.len() ==> !(#[trigger] bs[i]).spec_can_open(max_failures),
    ensures
        healthy(bs, max_failures).len() == 0,
    decreases bs.len(),
{
    if bs.len() > 0 {
        assert(forall|i: int|
            0 <= i < bs.drop_last().len() ==> !(#[trigger] bs.drop_last()[i]).spec_can_open(
                max_failures,
            ));
        lemma_healthy_none(bs.drop_last(), max_failures);
        assert(!bs.last().spec_can_open(max_failures));
    }
}

impl Server {
    /// With unique application names, the entry an index finds is the
    /// entry any other match would find.
    proof fn lemma_app_at(&self, a: int, a2: int)
        requires
            apps_unique(self.instances@),
            0 <= a < self.instances@.len(),
            0 <= a2 < self.instances@.len(),
            self.instances@[a].app_id@ == self.instances@[a2].app_id@,
        ensures
            a == a2,
    {
        if a < a2 {
            assert(self.instances@[a].app_id@ != self.instances@[a2].app_id@);
        } else if a2 < a {
            assert(self.instances@[a2].app_id@ != self.instances@[a].app_id@);
        }
    }

    /// Appends a back-end instance for an application, creating the
    /// application's entry on first reference; an address already
    /// present is left as it is.  The returned token is the
    /// application's listener, when one is bound.
    #[verifier::rlimit(60)]
    pub fn add_instance(&mut self, app_id: &String, addr: &String) -> (r: Option<usize>)
        requires
            old(self).wf(),
        ensures
            final(self).wf(),
            final(self).clients == old(self).clients,
            final(self).backend == old(self).backend,
            final(self).listeners == old(self).listeners,
            final(self).fronts == old(self).fronts,
            final(self).live == old(self).live,
            final(self).accepting == old(self).accepting,
            final(self).stopping == old(self).stopping,
            has_binding(final(self).instances@, app_id@, addr@),
            total_active(final(self).instances@) == total_active(old(self).instances@),
            has_binding(old(self).instances@, app_id@, addr@) ==> final(self).instances == old(
                self,
            ).instances,
            (!has_binding(old(self).instances@, app_id@, addr@) && (exists|a: int|
                0 <= a < old(self).instances@.len() && (#[trigger] old(self).instances@[a].app_id@)
                    == app_id@)) ==> exists|a: int|
                #![trigger old(self).instances@[a]]
                {
                    let apps = old(self).instances@;
                    let newapps = final(self).instances@;
                    &&& 0 <= a < apps.len()
                    &&& apps[a].app_id@ == app_id@
                    &&& newapps.len() == apps.len()
                    &&& (forall|m: int|
                        0 <= m < apps.len() && m != a ==> #[trigger] newapps[m] == apps[m])
                    &&& newapps[a].app_id == apps[a].app_id
                    &&& newapps[a].backends@.len() == apps[a].backends@.len() + 1
                    &&& (forall|x: int|
                        0 <= x < apps[a].backends@.len() ==> #[trigger] newapps[a].backends@[x]
                            == apps[a].backends@[x])
                    &&& fresh_backend(addr@, newapps[a].backends@.last())
                },
            (forall|a: int|
                0 <= a < old(self).instances@.len() ==> (#[trigger] old(self).instances@[a].app_id@)
                    != app_id@) ==> {
                let apps = old(self).instances@;
                let newapps = final(self).instances@;
                &&& newapps.len() == apps.len() + 1
                &&& (forall|m: int| 0 <= m < apps.len() ==> #[trigger] newapps[m] == apps[m])
                &&& newapps.last().app_id@ == app_id@
                &&& newapps.last().backends@.len() == 1
                &&& fresh_backend(addr@, newapps.last().backends@[0])
            },
    {
        let ghost oldapps = self.instances@;
        match find_app(&self.instances, app_id) {
            Some(ai) => {
                match find_backend(&self.instances[ai].backends, addr) {
                    Some(bi) => {
                        proof {
                            assert(has_addr(self.instances@[ai as int].backends@, addr@));
                            assert(has_binding(oldapps, app_id@, addr@));
                        }
                        // the pair already exists; keep its counters
                    },
                    None => {
                        let mut appe = self.instances.remove(ai);
                        let ghost old_bs = appe.backends@;
                        appe.backends.push(Backend::new(addr.clone()));
                        let ghost appe_g = appe;
                        self.instances.insert(ai, appe);
                        proof {
                            let newapps = self.instances@;
                            assert(newapps =~= oldapps.update(ai as int, appe_g));
                            let new_bs = appe_g.backends@;
                            let nb = new_bs[new_bs.len() - 1];
                            assert(nb.active_connections == 0 && nb.address@ == addr@);
                            lemma_sum_backends_push(old_bs, nb);
                            lemma_total_update(oldapps, ai as int, appe_g);
                            // no session is bound to the fresh pair
                            assert forall|i: int|
                                0 <= i < self.clients@.len() implies slot_weight(
                                #[trigger] self.clients@[i],
                                appe_g.app_id@,
                                addr@,
                            ) == 0 by {
                                if slot_weight(self.clients@[i], appe_g.app_id@, addr@) == 1 {
                                    let cs = self.clients@[i]->Some_0;
                                    assert(has_binding(oldapps, cs.app_id@, cs.backend_addr@));
                                    let a2 = choose|a2: int|
                                        0 <= a2 < oldapps.len() && (
                                        #[trigger] oldapps[a2].app_id@) == cs.app_id@ && has_addr(
                                            oldapps[a2].backends@,
                                            cs.backend_addr@,
                                        );
                                    self.lemma_app_at(a2, ai as int);
                                    assert(false);
                                }
                            }
                            lemma_bound_none(self.clients@, appe_g.app_id@, addr@);
                            assert forall|a: int, b: int|
                                0 <= a < newapps.len() && 0 <= b
                                    < newapps[a].backends@.len() implies (
                            #[trigger] newapps[a].backends@[b]).active_connections as nat
                                == bound_count(
                                self.clients@,
                                newapps[a].app_id@,
                                newapps[a].backends@[b].address@,
                            ) by {
                                if a == ai as int && b < old_bs.len() {
                                    assert(newapps[a].backends@[b] == old_bs[b]);
                                    assert(oldapps[a].backends@[b] == old_bs[b]);
                                }
                            }
                            assert forall|ci: int|
                                0 <= ci < self.clients@.len() implies ((
                            #[trigger] self.clients@[ci]) matches Some(cs)
                                ==> has_binding(newapps, cs.app_id@, cs.backend_addr@)) by {
                                if self.clients@[ci] is Some {
                                    let cs = self.clients@[ci]->Some_0;
                                    let a2 = choose|a2: int|
                                        0 <= a2 < oldapps.len() && (
                                        #[trigger] oldapps[a2].app_id@) == cs.app_id@ && has_addr(
                                            oldapps[a2].backends@,
                                            cs.backend_addr@,
                                        );
                                    if a2 == ai as int {
                                        let b2 = choose|b2: int|
                                            0 <= b2 < old_bs.len() && (
                                            #[trigger] old_bs[b2].address@) == cs.backend_addr@;
                                        assert(new_bs[b2].address@ == cs.backend_addr@);
                                        assert(has_addr(newapps[a2].backends@, cs.backend_addr@));
                                    } else {
                                        assert(newapps[a2] == oldapps[a2]);
                                        assert(has_addr(newapps[a2].backends@, cs.backend_addr@));
                                    }
                                    assert(newapps[a2].app_id@ == cs.app_id@);
                                }
                            }
                            assert(has_addr(newapps[ai as int].backends@, addr@));
                            assert(!has_binding(oldapps, app_id@, addr@)) by {
                                if has_binding(oldapps, app_id@, addr@) {
                                    let a2 = choose|a2: int|
                                        0 <= a2 < oldapps.len() && (#[trigger] oldapps[a2].app_id@)
                                            == app_id@ && has_addr(oldapps[a2].backends@, addr@);
                                    self.lemma_app_at_seq(oldapps, a2, ai as int);
                                    let b2 = choose|b2: int|
                                        0 <= b2 < old_bs.len() && (#[trigger] old_bs[b2].address@)
                                            == addr@;
                                    assert(false);
                                }
                            }
                            assert(oldapps[ai as int].app_id@ == app_id@);
                            assert(newapps[ai as int].app_id == oldapps[ai as int].app_id);
                            assert(fresh_backend(addr@, new_bs.last()));
                        }
                    },
                }
            },
            None => {
                let mut backends: Vec<Backend> = Vec::new();
                backends.push(Backend::new(addr.clone()));
                let entry = AppBackends { app_id: app_id.clone(), backends };
                let ghost entry_g = entry;
                self.instances.push(entry);
                proof {
                    let newapps = self.instances@;
                    let last = newapps.len() - 1;
                    assert(newapps[last] == entry_g);
                    lemma_sum_backends_push(Seq::<Backend>::empty(), entry_g.backends@[0]);
                    assert(sum_backends(entry_g.backends@) == 0);
                    lemma_total_push(oldapps, entry_g);
                    assert forall|i: int, j: int|
                        0 <= i < j < newapps.len() implies (#[trigger] newapps[i].app_id@) != (
                    #[trigger] newapps[j].app_id@) by {
                        if j < last {
                            assert(oldapps[i].app_id@ != oldapps[j].app_id@);
                        } else {
                            assert(oldapps[i].app_id@ != app_id@);
                        }
                    }
                    assert forall|i: int|
                        0 <= i < self.clients@.len() implies slot_weight(
                        #[trigger] self.clients@[i],
                        entry_g.app_id@,
                        addr@,
                    ) == 0 by {
                        if slot_weight(self.clients@[i], entry_g.app_id@, addr@) == 1 {
                            let cs = self.clients@[i]->Some_0;
                            assert(has_binding(oldapps, cs.app_id@, cs.backend_addr@));
                            let a2 = choose|a2: int|
                                0 <= a2 < oldapps.len() && (#[trigger] oldapps[a2].app_id@)
                                    == cs.app_id@ && has_addr(
                                    oldapps[a2].backends@,
                                    cs.backend_addr@,
                                );
                            assert(oldapps[a2].app_id@ != app_id@);
                            assert(false);
                        }
                    }
                    lemma_bound_none(self.clients@, entry_g.app_id@, addr@);
                    assert forall|a: int, b: int|
                        0 <= a < newapps.len() && 0 <= b < newapps[a].backends@.len() implies (
                    #[trigger] newapps[a].backends@[b]).active_connections as nat == bound_count(
                        self.clients@,
                        newapps[a].app_id@,
                        newapps[a].backends@[b].address@,
                    ) by {
                        if a < last {
                            assert(newapps[a] == oldapps[a]);
                        } else {
                            assert(newapps[a].backends@[b] == entry_g.backends@[0]);
                        }
                    }
                    assert forall|ci: int|
                        0 <= ci < self.clients@.len() implies ((
                    #[trigger] self.clients@[ci]) matches Some(cs) ==> has_binding(
                        newapps,
                        cs.app_id@,
                        cs.backend_addr@,
                    )) by {
                        if self.clients@[ci] is Some {
                            let cs = self.clients@[ci]->Some_0;
                            let a2 = choose|a2: int|
                                0 <= a2 < oldapps.len() && (#[trigger] oldapps[a2].app_id@)
                                    == cs.app_id@ && has_addr(
                                    oldapps[a2].backends@,
                                    cs.backend_addr@,
                                );
                            assert(newapps[a2] == oldapps[a2]);
                            assert(has_addr(newapps[a2].backends@, cs.backend_addr@));
                            assert(newapps[a2].app_id@ == cs.app_id@);
                        }
                    }
                    assert(entry_g.backends@[0].address@ == addr@);
                    assert(has_addr(newapps[last].backends@, addr@));
                    assert(!has_binding(oldapps, app_id@, addr@)) by {
                        if has_binding(oldapps, app_id@, addr@) {
                            let a2 = choose|a2: int|
                                0 <= a2 < oldapps.len() && (#[trigger] oldapps[a2].app_id@)
                                    == app_id@ && has_addr(oldapps[a2].backends@, addr@);
                            assert(false);
                        }
                    }
                    assert(newapps.last().app_id@ == app_id@);
                    assert(fresh_backend(addr@, newapps.last().backends@[0]));
                }
            },
        }
        match find_front(&self.fronts, app_id) {
            Some(i) => Some(self.fronts[i].1),
            None => None,
        }
    }
}

impl Server {
    /// Marks the matching instance as draining; an instance that
    /// carries no session disappears from the table at once, one that
    /// does disappears when its last session ends.  No new session is
    /// assigned to it either way.  The returned token is the
    /// application's listener, when one is bound.
    #[verifier::rlimit(60)]
    pub fn remove_instance(&mut self, app_id: &String, addr: &String) -> (r: Option<usize>)
        requires
            old(self).wf(),
        ensures
            final(self).wf(),
            final(self).clients == old(self).clients,
            final(self).backend == old(self).backend,
            final(self).listeners == old(self).listeners,
            final(self).fronts == old(self).fronts,
            final(self).live == old(self).live,
            forall|a: int, b: int|
                #![trigger final(self).instances@[a].backends@[b]]
                {
                    let apps = final(self).instances@;
                    (0 <= a < apps.len() && 0 <= b < apps[a].backends@.len()
                        && apps[a].app_id@ == app_id@ && apps[a].backends@[b].address@ == addr@)
                        ==> apps[a].backends@[b].status == BackendStatus::Closing
                },
            total_active(final(self).instances@) == total_active(old(self).instances@),
    {
        let ghost oldapps = self.instances@;
        match find_app(&self.instances, app_id) {
            None => {},
            Some(ai) => {
                match find_backend(&self.instances[ai].backends, addr) {
                    None => {},
                    Some(bi) => {
                        let mut appe = self.instances.remove(ai);
                        let ghost old_bs = appe.backends@;
                        let mut b = appe.backends.remove(bi);
                        if b.active_connections == 0 {
                            // nothing drains: drop the record now
                            let ghost appe_g = appe;
                            self.instances.insert(ai, appe);
                            proof {
                                let newapps = self.instances@;
                                assert(newapps =~= oldapps.update(ai as int, appe_g));
                                assert(appe_g.backends@ =~= old_bs.remove(bi as int));
                                let new_bs = appe_g.backends@;
                                lemma_sum_backends_remove(old_bs, bi as int);
                                lemma_total_update(oldapps, ai as int, appe_g);
                                assert forall|x: int, y: int|
                                    0 <= x < y < new_bs.len() implies (
                                #[trigger] new_bs[x].address@) != (
                                #[trigger] new_bs[y].address@) by {
                                    if y < bi as int {
                                        assert(new_bs[x] == old_bs[x] && new_bs[y] == old_bs[y]);
                                    } else if x < bi as int {
                                        assert(new_bs[x] == old_bs[x] && new_bs[y] == old_bs[y
                                            + 1]);
                                    } else {
                                        assert(new_bs[x] == old_bs[x + 1] && new_bs[y] == old_bs[y
                                            + 1]);
                                    }
                                }
                                assert forall|a: int, x: int|
                                    0 <= a < newapps.len() && 0 <= x
                                        < newapps[a].backends@.len() implies {
                                    &&& (#[trigger] newapps[a].backends@[x]).status
                                        != BackendStatus::Closed
                                    &&& newapps[a].backends@[x].active_connections as nat
                                        == bound_count(
                                        self.clients@,
                                        newapps[a].app_id@,
                                        newapps[a].backends@[x].address@,
                                    )
                                } by {
                                    if a == ai as int {
                                        if x < bi as int {
                                            assert(newapps[a].backends@[x] == old_bs[x]);
                                            assert(oldapps[a].backends@[x] == old_bs[x]);
                                        } else {
                                            assert(newapps[a].backends@[x] == old_bs[x + 1]);
                                            assert(oldapps[a].backends@[x + 1] == old_bs[x + 1]);
                                        }
                                    } else {
                                        assert(newapps[a] == oldapps[a]);
                                    }
                                }
                                // the dropped pair had no bound session
                                assert(old_bs[bi as int].active_connections as nat == bound_count(
                                    self.clients@,
                                    appe_g.app_id@,
                                    addr@,
                                ));
                                assert forall|ci: int|
                                    0 <= ci < self.clients@.len() implies ((
                                #[trigger] self.clients@[ci]) matches Some(cs) ==> has_binding(
                                    newapps,
                                    cs.app_id@,
                                    cs.backend_addr@,
                                )) by {
                                    if self.clients@[ci] is Some {
                                        let cs = self.clients@[ci]->Some_0;
                                        let a2 = choose|a2: int|
                                            0 <= a2 < oldapps.len() && (
                                            #[trigger] oldapps[a2].app_id@) == cs.app_id@
                                                && has_addr(
                                                oldapps[a2].backends@,
                                                cs.backend_addr@,
                                            );
                                        if a2 == ai as int {
                                            let b2 = choose|b2: int|
                                                0 <= b2 < old_bs.len() && (
                                                #[trigger] old_bs[b2].address@)
                                                    == cs.backend_addr@;
                                            if b2 == bi as int {
                                                lemma_bound_zero(
                                                    self.clients@,
                                                    cs.app_id@,
                                                    cs.backend_addr@,
                                                    ci,
                                                );
                                                assert(false);
                                            } else if b2 < bi as int {
                                                assert(new_bs[b2] == old_bs[b2]);
                                                assert(has_addr(new_bs, cs.backend_addr@));
                                            } else {
                                                assert(new_bs[b2 - 1] == old_bs[b2]);
                                                assert(has_addr(new_bs, cs.backend_addr@));
                                            }
                                            assert(newapps[a2].app_id@ == cs.app_id@);
                                        } else {
                                            assert(newapps[a2] == oldapps[a2]);
                                        }
                                    }
                                }
                            }
                        } else {
                            b.set_closing();
                            appe.backends.insert(bi, b);
                            let ghost appe_g = appe;
                            self.instances.insert(ai, appe);
                            proof {
                                let newapps = self.instances@;
                                assert(newapps =~= oldapps.update(ai as int, appe_g));
                                assert(appe_g.backends@ =~= old_bs.update(
                                    bi as int,
                                    appe_g.backends@[bi as int],
                                ));
                                let new_bs = appe_g.backends@;
                                let b2 = new_bs[bi as int];
                                assert(b2.address@ == old_bs[bi as int].address@);
                                assert(b2.active_connections == old_bs[
                                    bi as int].active_connections);
                                lemma_sum_backends_update(old_bs, bi as int, b2);
                                lemma_total_update(oldapps, ai as int, appe_g);
                                assert forall|x: int, y: int|
                                    0 <= x < y < new_bs.len() implies (
                                #[trigger] new_bs[x].address@) != (
                                #[trigger] new_bs[y].address@) by {
                                    assert(old_bs[x].address@ != old_bs[y].address@);
                                    assert(new_bs[x].address@ == old_bs[x].address@);
                                    assert(new_bs[y].address@ == old_bs[y].address@);
                                }
                                assert forall|a: int, x: int|
                                    0 <= a < newapps.len() && 0 <= x
                                        < newapps[a].backends@.len() implies {
                                    &&& (#[trigger] newapps[a].backends@[x]).status
                                        != BackendStatus::Closed
                                    &&& newapps[a].backends@[x].active_connections as nat
                                        == bound_count(
                                        self.clients@,
                                        newapps[a].app_id@,
                                        newapps[a].backends@[x].address@,
                                    )
                                } by {
                                    if a == ai as int {
                                        if x != bi as int {
                                            assert(newapps[a].backends@[x] == old_bs[x]);
                                            assert(oldapps[a].backends@[x] == old_bs[x]);
                                        } else {
                                            assert(oldapps[a].backends@[x] == old_bs[x]);
                                        }
                                    } else {
                                        assert(newapps[a] == oldapps[a]);
                                    }
                                }
                                assert forall|ci: int|
                                    0 <= ci < self.clients@.len() implies ((
                                #[trigger] self.clients@[ci]) matches Some(cs) ==> has_binding(
                                    newapps,
                                    cs.app_id@,
                                    cs.backend_addr@,
                                )) by {
                                    if self.clients@[ci] is Some {
                                        let cs = self.clients@[ci]->Some_0;
                                        let a2 = choose|a2: int|
                                            0 <= a2 < oldapps.len() && (
                                            #[trigger] oldapps[a2].app_id@) == cs.app_id@
                                                && has_addr(
                                                oldapps[a2].backends@,
                                                cs.backend_addr@,
                                            );
                                        if a2 == ai as int {
                                            let bx = choose|bx: int|
                                                0 <= bx < old_bs.len() && (
                                                #[trigger] old_bs[bx].address@)
                                                    == cs.backend_addr@;
                                            assert(new_bs[bx].address@ == old_bs[bx].address@);
                                            assert(has_addr(new_bs, cs.backend_addr@));
                                            assert(newapps[a2].app_id@ == cs.app_id@);
                                        } else {
                                            assert(newapps[a2] == oldapps[a2]);
                                        }
                                    }
                                }
                            }
                        }
                    },
                }
            },
        }
        match find_front(&self.fronts, app_id) {
            Some(i) => Some(self.fronts[i].1),
            None => None,
        }
    }

    /// A connect attempt to `(app, addr)` failed: one more failure on
    /// that instance's account (saturating at the machine limit),
    /// nothing else moves; an unknown pair changes nothing.
    pub fn connect_failed(&mut self, app_id: &String, addr: &String)
        requires
            old(self).wf(),
        ensures
            final(self).wf(),
            final(self).clients == old(self).clients,
            final(self).backend == old(self).backend,
            final(self).listeners == old(self).listeners,
            final(self).fronts == old(self).fronts,
            final(self).live == old(self).live,
            final(self).accepting == old(self).accepting,
            final(self).stopping == old(self).stopping,
            final(self).accept_rejected == old(self).accept_rejected,
            total_active(final(self).instances@) == total_active(old(self).instances@),
            !has_binding(old(self).instances@, app_id@, addr@) ==> final(self).instances == old(
                self,
            ).instances,
            has_binding(old(self).instances@, app_id@, addr@) ==> exists|a: int, b: int|
                #![trigger old(self).instances@[a].backends@[b]]
                {
                    let apps = old(self).instances@;
                    let newapps = final(self).instances@;
                    &&& 0 <= a < apps.len()
                    &&& 0 <= b < apps[a].backends@.len()
                    &&& apps[a].app_id@ == app_id@
                    &&& apps[a].backends@[b].address@ == addr@
                    &&& if apps[a].backends@[b].failures < usize::MAX {
                        &&& newapps.len() == apps.len()
                        &&& (forall|m: int|
                            0 <= m < apps.len() && m != a ==> #[trigger] newapps[m] == apps[m])
                        &&& newapps[a].app_id == apps[a].app_id
                        &&& newapps[a].backends@.len() == apps[a].backends@.len()
                        &&& (forall|x: int|
                            0 <= x < apps[a].backends@.len() && x != b
                                ==> #[trigger] newapps[a].backends@[x] == apps[a].backends@[x])
                        &&& newapps[a].backends@[b] == (Backend {
                            failures: (apps[a].backends@[b].failures + 1) as usize,
                            ..apps[a].backends@[b]
                        })
                    } else {
                        final(self).instances == old(self).instances
                    }
                },
    {
        let ghost oldapps = self.instances@;
        match find_app(&self.instances, app_id) {
            None => {
                proof {
                    assert(!has_binding(oldapps, app_id@, addr@)) by {
                        if has_binding(oldapps, app_id@, addr@) {
                            let a2 = choose|a2: int|
                                0 <= a2 < oldapps.len() && (#[trigger] oldapps[a2].app_id@)
                                    == app_id@ && has_addr(oldapps[a2].backends@, addr@);
                            assert(false);
                        }
                    }
                }
            },
            Some(ai) => {
                match find_backend(&self.instances[ai].backends, addr) {
                    None => {
                        proof {
                            assert(!has_binding(oldapps, app_id@, addr@)) by {
                                if has_binding(oldapps, app_id@, addr@) {
                                    let a2 = choose|a2: int|
                                        0 <= a2 < oldapps.len() && (#[trigger] oldapps[a2].app_id@)
                                            == app_id@ && has_addr(oldapps[a2].backends@, addr@);
                                    self.lemma_app_at(a2, ai as int);
                                    let b2 = choose|b2: int|
                                        0 <= b2 < oldapps[a2].backends@.len() && (
                                        #[trigger] oldapps[a2].backends@[b2].address@) == addr@;
                                    assert(false);
                                }
                            }
                        }
                    },
                    Some(bi) => {
                        proof {
                            assert(has_addr(oldapps[ai as int].backends@, addr@));
                            assert(has_binding(oldapps, app_id@, addr@));
                            // any other matching pair is this one
                            assert forall|a: int, b: int|
                                0 <= a < oldapps.len() && 0 <= b < oldapps[a].backends@.len()
                                    && (#[trigger] oldapps[a].backends@[b]).address@ == addr@
                                    && oldapps[a].app_id@ == app_id@ implies a == ai as int && b
                                == bi as int by {
                                self.lemma_app_at(a, ai as int);
                                if b != bi as int {
                                    assert(addrs_unique(oldapps[a].backends@));
                                    assert(false);
                                }
                            }
                        }
                        if self.instances[ai].backends[bi].failures < usize::MAX {
                            let mut appe = self.instances.remove(ai);
                            let ghost old_bs = appe.backends@;
                            let mut b = appe.backends.remove(bi);
                            b.failures = b.failures + 1;
                            appe.backends.insert(bi, b);
                            let ghost appe_g = appe;
                            self.instances.insert(ai, appe);
                            proof {
                                let newapps = self.instances@;
                                assert(newapps =~= oldapps.update(ai as int, appe_g));
                                assert(appe_g.backends@ =~= old_bs.update(
                                    bi as int,
                                    appe_g.backends@[bi as int],
                                ));
                                let new_bs = appe_g.backends@;
                                lemma_sum_backends_update(old_bs, bi as int, new_bs[bi as int]);
                                lemma_total_update(oldapps, ai as int, appe_g);
                                assert forall|x: int, y: int|
                                    0 <= x < y < new_bs.len() implies (
                                #[trigger] new_bs[x].address@) != (
                                #[trigger] new_bs[y].address@) by {
                                    assert(old_bs[x].address@ != old_bs[y].address@);
                                    assert(new_bs[x].address@ == old_bs[x].address@);
                                    assert(new_bs[y].address@ == old_bs[y].address@);
                                }
                                assert forall|a: int, x: int|
                                    0 <= a < newapps.len() && 0 <= x
                                        < newapps[a].backends@.len() implies {
                                    &&& (#[trigger] newapps[a].backends@[x]).status
                                        != BackendStatus::Closed
                                    &&& newapps[a].backends@[x].active_connections as nat
                                        == bound_count(
                                        self.clients@,
                                        newapps[a].app_id@,
                                        newapps[a].backends@[x].address@,
                                    )
                                } by {
                                    if a == ai as int {
                                        assert(oldapps[a].backends@[x] == old_bs[x]);
                                        if x != bi as int {
                                            assert(newapps[a].backends@[x] == old_bs[x]);
                                        }
                                    } else {
                                        assert(newapps[a] == oldapps[a]);
                                    }
                                }
                                assert forall|ci: int|
                                    0 <= ci < self.clients@.len() implies ((
                                #[trigger] self.clients@[ci]) matches Some(cs) ==> has_binding(
                                    newapps,
                                    cs.app_id@,
                                    cs.backend_addr@,
                                )) by {
                                    if self.clients@[ci] is Some {
                                        let cs = self.clients@[ci]->Some_0;
                                        let a2 = choose|a2: int|
                                            0 <= a2 < oldapps.len() && (
                                            #[trigger] oldapps[a2].app_id@) == cs.app_id@
                                                && has_addr(
                                                oldapps[a2].backends@,
                                                cs.backend_addr@,
                                            );
                                        if a2 == ai as int {
                                            let bx = choose|bx: int|
                                                0 <= bx < old_bs.len() && (
                                                #[trigger] old_bs[bx].address@)
                                                    == cs.backend_addr@;
                                            assert(new_bs[bx].address@ == old_bs[bx].address@);
                                            assert(has_addr(new_bs, cs.backend_addr@));
                                            assert(newapps[a2].app_id@ == cs.app_id@);
                                        } else {
                                            assert(newapps[a2] == oldapps[a2]);
                                        }
                                    }
                                }
                            }
                        }
                    },
                }
            },
        }
    }

    /// Which instance a new session for this listener should try:
    /// drawn by `rnd` uniformly among the healthy instances of the
    /// listener's application, `NoBackendAvailable` when none is fit.
    pub fn pick_backend(&self, token: usize, rnd: usize) -> (r: Result<String, ConnectionError>)
        requires
            self.wf(),
        ensures
            ({
                let ml = self.max_listeners as int;
                match r {
                    Ok(addr) => exists|a: int|
                        {
                            &&& token < ml
                            &&& self.listeners@[token as int] matches Some(l)
                            &&& 0 <= a < self.instances@.len()
                            &&& (#[trigger] self.instances@[a].app_id@) == l.app_id@
                            &&& {
                                let hs = healthy(self.instances@[a].backends@, self.max_failures);
                                hs.len() > 0 && addr@ == hs[rnd as int % hs.len() as int].address@
                            }
                        },
                    Err(e) => {
                        &&& e == ConnectionError::NoBackendAvailable
                        &&& (token < ml ==> (self.listeners@[token as int] matches Some(l) ==> (
                        forall|a: int|
                            0 <= a < self.instances@.len() && (#[trigger] self.instances@[a].app_id@)
                                == l.app_id@ ==> healthy(
                                self.instances@[a].backends@,
                                self.max_failures,
                            ).len() == 0)))
                    },
                }
            }),
    {
        let l_app: String = match self.listeners.get(token) {
            Some(l) => l.app_id.clone(),
            None => {
                return Err(ConnectionError::NoBackendAvailable);
            },
        };
        match find_app(&self.instances, &l_app) {
            None => Err(ConnectionError::NoBackendAvailable),
            Some(ai) => {
                let bs = &self.instances[ai].backends;
                let mut candidates: Vec<String> = Vec::new();
                let mut i: usize = 0;
                while i < bs.len()
                    invariant
                        0 <= i <= bs@.len(),
                        candidates@.len() == healthy(
                            bs@.take(i as int),
                            self.max_failures,
                        ).len(),
                        forall|k: int|
                            0 <= k < candidates@.len() ==> (#[trigger] candidates@[k])@ == healthy(
                                bs@.take(i as int),
                                self.max_failures,
                            )[k].address@,
                    decreases bs@.len() - i,
                {
                    proof {
                        assert(bs@.take(i as int + 1).drop_last() =~= bs@.take(i as int));
                        assert(bs@.take(i as int + 1).last() == bs@[i as int]);
                    }
                    if bs[i].can_open(self.max_failures) {
                        candidates.push(bs[i].address.clone());
                    }
                    i = i + 1;
                }
                proof {
                    assert(bs@.take(bs@.len() as int) =~= bs@);
                }
                if candidates.len() == 0 {
                    proof {
                        assert forall|a: int|
                            0 <= a < self.instances@.len() && (#[trigger] self.instances@[a].app_id@)
                                == l_app@ implies healthy(
                            self.instances@[a].backends@,
                            self.max_failures,
                        ).len() == 0 by {
                            self.lemma_app_at(a, ai as int);
                        }
                    }
                    Err(ConnectionError::NoBackendAvailable)
                } else {
                    let idx = rnd % candidates.len();
                    Ok(candidates[idx].clone())
                }
            },
        }
    }
}

impl Server {
    /// A session can be booked exactly when the loop still accepts,
    /// the listener is live, `(its application, addr)` is a healthy
    /// table entry, and both slabs have room.
    pub open spec fn spec_can_register(&self, token: usize, addr: Seq<char>) -> bool {
        let ml = self.max_listeners as int;
        &&& self.accepting
        &&& token < ml
        &&& self.listeners@[token as int] matches Some(l) && (exists|a: int, b: int|
            #![trigger self.instances@[a].backends@[b]]
            {
                let apps = self.instances@;
                &&& 0 <= a < apps.len()
                &&& 0 <= b < apps[a].backends@.len()
                &&& apps[a].app_id@ == l.app_id@
                &&& apps[a].backends@[b].address@ == addr
                &&& apps[a].backends@[b].status == BackendStatus::Normal
                &&& apps[a].backends@[b].active_connections < usize::MAX
            })
        &&& (exists|i: int| 0 <= i < self.clients@.len() && self.clients@[i] is None)
        &&& (exists|i: int| 0 <= i < self.backend@.len() && self.backend@[i] is None)
    }

    /// Books a freshly connected session in: the slab gives it a front
    /// and a back identifier, and the chosen instance's
    /// `active_connections` grows with it.  Refused while not
    /// accepting, when the slab is full, or when `(app, addr)` is not
    /// a healthy table entry.
    #[verifier::rlimit(100)]
    pub fn register_session(&mut self, token: usize, addr: &String) -> (r: Result<
        usize,
        ConnectionError,
    >)
        requires
            old(self).wf(),
        ensures
            final(self).wf(),
            final(self).listeners == old(self).listeners,
            final(self).fronts == old(self).fronts,
            final(self).accepting == old(self).accepting,
            final(self).stopping == old(self).stopping,
            final(self).accept_rejected == old(self).accept_rejected,
            final(self).max_listeners == old(self).max_listeners,
            final(self).max_connections == old(self).max_connections,
            final(self).max_failures == old(self).max_failures,
            match r {
                Ok(tok) => {
                    let ml = old(self).max_listeners as int;
                    let mc = old(self).max_connections as int;
                    &&& old(self).accepting
                    &&& ml <= tok < ml + mc
                    &&& final(self).live == old(self).live + 1
                    &&& old(self).clients@[tok - ml] is None
                    &&& (forall|i: int|
                        0 <= i < mc && i != tok - ml ==> #[trigger] final(self).clients@[i] == old(
                            self,
                        ).clients@[i])
                    &&& final(self).clients@[tok - ml] matches Some(cs) && {
                        &&& cs.backend_addr@ == addr@
                        &&& cs.session.status == crate::session::ConnectionStatus::Connected
                        &&& cs.session.token == Some(tok)
                        &&& cs.session.rx_count == 0
                        &&& cs.session.tx_count == 0
                        &&& cs.session.backend_token matches Some(bt) && ml + mc <= bt < ml + 2
                            * mc && old(self).backend@[bt - ml - mc] is None
                            && final(self).backend@ == old(self).backend@.update(
                            bt - ml - mc,
                            Some(tok),
                        )
                    }
                    &&& total_active(final(self).instances@) == total_active(
                        old(self).instances@,
                    ) + 1
                    &&& exists|a: int, b: int|
                        #![trigger old(self).instances@[a].backends@[b]]
                        {
                            let apps = old(self).instances@;
                            &&& 0 <= a < apps.len()
                            &&& 0 <= b < apps[a].backends@.len()
                            &&& apps[a].backends@[b].address@ == addr@
                            &&& apps[a].backends@[b].status == BackendStatus::Normal
                        }
                },
                Err(e) => {
                    &&& e == ConnectionError::NoBackendAvailable
                    &&& final(self).clients == old(self).clients
                    &&& final(self).backend == old(self).backend
                    &&& final(self).instances == old(self).instances
                    &&& final(self).live == old(self).live
                },
            },
            r is Ok <==> old(self).spec_can_register(token, addr@),
    {
        if !self.accepting {
            proof {
                assert(!old(self).spec_can_register(token, addr@));
            }
            return Err(ConnectionError::NoBackendAvailable);
        }
        let app_id: String = match self.listeners.get(token) {
            Some(l) => l.app_id.clone(),
            None => {
                proof {
                    assert(!old(self).spec_can_register(token, addr@));
                }
                return Err(ConnectionError::NoBackendAvailable);
            },
        };
        let ai = match find_app(&self.instances, &app_id) {
            Some(ai) => ai,
            None => {
                proof {
                    assert(!old(self).spec_can_register(token, addr@)) by {
                        if old(self).spec_can_register(token, addr@) {
                            let (a, b) = choose|a: int, b: int|
                                #![trigger old(self).instances@[a].backends@[b]]
                                {
                                    let apps = old(self).instances@;
                                    &&& 0 <= a < apps.len()
                                    &&& 0 <= b < apps[a].backends@.len()
                                    &&& apps[a].app_id@ == app_id@
                                    &&& apps[a].backends@[b].address@ == addr@
                                    &&& apps[a].backends@[b].status == BackendStatus::Normal
                                    &&& apps[a].backends@[b].active_connections < usize::MAX
                                };
                            assert(old(self).instances@[a].app_id@ != app_id@);
                        }
                    }
                }
                return Err(ConnectionError::NoBackendAvailable);
            },
        };
        let bi = match find_backend(&self.instances[ai].backends, addr) {
            Some(bi) => bi,
            None => {
                proof {
                    assert(!old(self).spec_can_register(token, addr@)) by {
                        if old(self).spec_can_register(token, addr@) {
                            let (a, b) = choose|a: int, b: int|
                                #![trigger old(self).instances@[a].backends@[b]]
                                {
                                    let apps = old(self).instances@;
                                    &&& 0 <= a < apps.len()
                                    &&& 0 <= b < apps[a].backends@.len()
                                    &&& apps[a].app_id@ == app_id@
                                    &&& apps[a].backends@[b].address@ == addr@
                                    &&& apps[a].backends@[b].status == BackendStatus::Normal
                                    &&& apps[a].backends@[b].active_connections < usize::MAX
                                };
                            self.lemma_app_at(a, ai as int);
                            assert(old(self).instances@[a].backends@[b].address@ != addr@);
                        }
                    }
                }
                return Err(ConnectionError::NoBackendAvailable);
            },
        };
        if !(self.instances[ai].backends[bi].status == BackendStatus::Normal
            && self.instances[ai].backends[bi].active_connections < usize::MAX) {
            proof {
                assert(!old(self).spec_can_register(token, addr@)) by {
                    if old(self).spec_can_register(token, addr@) {
                        let (a, b) = choose|a: int, b: int|
                            #![trigger old(self).instances@[a].backends@[b]]
                            {
                                let apps = old(self).instances@;
                                &&& 0 <= a < apps.len()
                                &&& 0 <= b < apps[a].backends@.len()
                                &&& apps[a].app_id@ == app_id@
                                &&& apps[a].backends@[b].address@ == addr@
                                &&& apps[a].backends@[b].status == BackendStatus::Normal
                                &&& apps[a].backends@[b].active_connections < usize::MAX
                            };
                        self.lemma_app_at(a, ai as int);
                        if b != bi as int {
                            assert(addrs_unique(old(self).instances@[a].backends@));
                            assert(false);
                        }
                    }
                }
            }
            return Err(ConnectionError::NoBackendAvailable);
        }
        let ci = match self.clients.free_index() {
            Some(ci) => ci,
            None => {
                proof {
                    assert(!old(self).spec_can_register(token, addr@));
                }
                return Err(ConnectionError::NoBackendAvailable);
            },
        };
        let bi2 = match self.backend.free_index() {
            Some(bi2) => bi2,
            None => {
                proof {
                    assert(!old(self).spec_can_register(token, addr@));
                }
                return Err(ConnectionError::NoBackendAvailable);
            },
        };
        proof {
            assert(old(self).spec_can_register(token, addr@)) by {
                assert(old(self).instances@[ai as int].backends@[bi as int].address@ == addr@);
                assert(old(self).clients@[ci as int] is None);
                assert(old(self).backend@[bi2 as int] is None);
            }
        }
        let ghost oldapps = self.instances@;
        let ghost oldclients = self.clients@;
        let ghost oldbackend = self.backend@;

        let front_token = self.max_listeners + ci;
        let back_token = self.max_listeners + self.max_connections + bi2;

        let mut appe = self.instances.remove(ai);
        let ghost old_bs = appe.backends@;
        let mut b = appe.backends.remove(bi);
        b.inc_connections();
        appe.backends.insert(bi, b);
        let ghost appe_g = appe;
        self.instances.insert(ai, appe);

        let mut session = Client::new();
        session.status = crate::session::ConnectionStatus::Connected;
        session.set_tokens(front_token, back_token);
        let slot = ClientSlot { session, app_id: app_id, backend_addr: addr.clone() };
        let ghost slot_g = slot;
        self.clients.put_at(ci, slot);
        self.backend.put_at(bi2, front_token);
        proof {
            lemma_count_some_le(self.clients@);
        }
        self.live = self.live + 1;

        proof {
            let ml = self.max_listeners as int;
            let mc = self.max_connections as int;
            let newapps = self.instances@;
            let newclients = self.clients@;
            assert(newapps =~= oldapps.update(ai as int, appe_g));
            assert(appe_g.backends@ =~= old_bs.update(bi as int, appe_g.backends@[bi as int]));
            let new_bs = appe_g.backends@;
            let b2 = new_bs[bi as int];
            assert(b2.address@ == addr@);
            assert(b2.active_connections == old_bs[bi as int].active_connections + 1);
            assert(newclients == oldclients.update(ci as int, Some(slot_g)));

            // sums: one more active connection, one more live session
            lemma_sum_backends_update(old_bs, bi as int, b2);
            lemma_total_update(oldapps, ai as int, appe_g);
            assert(total_active(newapps) == total_active(oldapps) + 1);

            // address sets unchanged
            assert forall|x: int, y: int|
                0 <= x < y < new_bs.len() implies (#[trigger] new_bs[x].address@) != (
            #[trigger] new_bs[y].address@) by {
                assert(old_bs[x].address@ != old_bs[y].address@);
                assert(new_bs[x].address@ == old_bs[x].address@);
                assert(new_bs[y].address@ == old_bs[y].address@);
            }

            // per-pair counts
            assert(slot_g.app_id@ == appe_g.app_id@);
            assert forall|a: int, x: int|
                0 <= a < newapps.len() && 0 <= x < newapps[a].backends@.len() implies {
                &&& (#[trigger] newapps[a].backends@[x]).status != BackendStatus::Closed
                &&& newapps[a].backends@[x].active_connections as nat == bound_count(
                    newclients,
                    newapps[a].app_id@,
                    newapps[a].backends@[x].address@,
                )
            } by {
                lemma_bound_update(
                    oldclients,
                    ci as int,
                    Some(slot_g),
                    newapps[a].app_id@,
                    newapps[a].backends@[x].address@,
                );
                if a == ai as int {
                    assert(oldapps[a].backends@[x] == old_bs[x]);
                    if x == bi as int {
                        assert(slot_weight(Some(slot_g), newapps[a].app_id@, addr@) == 1);
                    } else {
                        assert(new_bs[x] == old_bs[x]);
                        assert(new_bs[x].address@ != addr@);
                        assert(slot_weight(
                            Some(slot_g),
                            newapps[a].app_id@,
                            newapps[a].backends@[x].address@,
                        ) == 0);
                    }
                } else {
                    assert(newapps[a] == oldapps[a]);
                    self.lemma_app_at_seq(oldapps, a, ai as int);
                    assert(newapps[a].app_id@ != appe_g.app_id@);
                    assert(slot_weight(
                        Some(slot_g),
                        newapps[a].app_id@,
                        newapps[a].backends@[x].address@,
                    ) == 0);
                }
            }

            // token geometry
            assert forall|cx: int|
                0 <= cx < mc implies ((#[trigger] newclients[cx]) matches Some(cs) ==> {
                &&& cs.session.wf()
                &&& cs.session.token == Some((ml + cx) as usize)
                &&& cs.session.backend_token matches Some(bt) && ml + mc <= bt < ml + 2 * mc
                    && self.backend@[bt - ml - mc] == Some((ml + cx) as usize)
                &&& has_binding(newapps, cs.app_id@, cs.backend_addr@)
            }) by {
                if newclients[cx] is Some {
                    let cs = newclients[cx]->Some_0;
                    if cx == ci as int {
                        assert(cs == slot_g);
                        assert(cs.session.backend_token == Some(
                            (ml + mc + bi2 as int) as usize,
                        ));
                        assert(self.backend@[bi2 as int] == Some((ml + ci as int) as usize));
                        assert(cs.backend_addr@ == addr@);
                        assert(newapps[ai as int].app_id@ == cs.app_id@);
                        assert(new_bs[bi as int].address@ == cs.backend_addr@);
                        assert(has_addr(newapps[ai as int].backends@, cs.backend_addr@));
                        assert(has_binding(newapps, cs.app_id@, cs.backend_addr@));
                    } else {
                        assert(oldclients[cx] is Some && oldclients[cx]->Some_0 == cs);
                        let bt = cs.session.backend_token->0;
                        assert(oldbackend[bt - ml - mc] == Some((ml + cx) as usize));
                        assert(bt - ml - mc != bi2 as int);
                        assert(self.backend@[bt - ml - mc] == Some((ml + cx) as usize));
                        // the binding survives the instance update
                        let a2 = choose|a2: int|
                            0 <= a2 < oldapps.len() && (#[trigger] oldapps[a2].app_id@)
                                == cs.app_id@ && has_addr(oldapps[a2].backends@, cs.backend_addr@);
                        if a2 == ai as int {
                            let bx = choose|bx: int|
                                0 <= bx < old_bs.len() && (#[trigger] old_bs[bx].address@)
                                    == cs.backend_addr@;
                            assert(new_bs[bx].address@ == old_bs[bx].address@);
                            assert(has_addr(new_bs, cs.backend_addr@));
                            assert(newapps[a2].app_id@ == cs.app_id@);
                        } else {
                            assert(newapps[a2] == oldapps[a2]);
                        }
                        assert(has_binding(newapps, cs.app_id@, cs.backend_addr@));
                    }
                }
            }
            assert forall|bx: int|
                0 <= bx < mc implies ((#[trigger] self.backend@[bx]) matches Some(t) ==> {
                &&& ml <= t < ml + mc
                &&& newclients[t - ml] matches Some(cs) && cs.session.backend_token == Some(
                    (ml + mc + bx) as usize,
                )
            }) by {
                if self.backend@[bx] is Some {
                    let t = self.backend@[bx]->Some_0;
                    if bx == bi2 as int {
                        assert(t == front_token);
                        assert(newclients[t - ml] == Some(slot_g));
                    } else {
                        assert(oldbackend[bx] == Some(t));
                        assert(t - ml != ci as int);
                        assert(newclients[t - ml] == oldclients[t - ml]);
                    }
                }
            }
        }
        Ok(front_token)
    }

    /// With unique application names, two matching entries are one.
    proof fn lemma_app_at_seq(&self, apps: Seq<AppBackends>, a: int, a2: int)
        requires
            apps_unique(apps),
            0 <= a < apps.len(),
            0 <= a2 < apps.len(),
        ensures
            apps[a].app_id@ == apps[a2].app_id@ ==> a == a2,
    {
        if a < a2 {
            assert(apps[a].app_id@ != apps[a2].app_id@);
        } else if a2 < a {
            assert(apps[a2].app_id@ != apps[a].app_id@);
        }
    }
}

impl Server {
    /// Ends a session: frees both its identifiers and takes it off its
    /// instance's account; a draining instance whose last session this
    /// was disappears from the table.  `false` when nothing lives at
    /// the identifier.
    #[verifier::rlimit(100)]
    pub fn close_client(&mut self, token: usize) -> (r: bool)
        requires
            old(self).wf(),
        ensures
            final(self).wf(),
            final(self).listeners == old(self).listeners,
            final(self).fronts == old(self).fronts,
            final(self).accepting == old(self).accepting,
            final(self).stopping == old(self).stopping,
            final(self).accept_rejected == old(self).accept_rejected,
            ({
                let ml = old(self).max_listeners as int;
                let mc = old(self).max_connections as int;
                &&& r == (ml <= token < ml + mc && old(self).clients@[token - ml] is Some)
                &&& !r ==> *final(self) == *old(self)
                &&& r ==> {
                    &&& final(self).live == old(self).live - 1
                    &&& final(self).clients@ == old(self).clients@.update(token - ml, None)
                    &&& total_active(final(self).instances@) == total_active(
                        old(self).instances@,
                    ) - 1
                    &&& ({
                        // a draining instance whose last session this was is
                        // gone: a matching record still present and still
                        // draining still carries sessions
                        let cs = old(self).clients@[token - ml]->Some_0;
                        forall|a: int, b: int|
                            #![trigger final(self).instances@[a].backends@[b]]
                            {
                                let apps = final(self).instances@;
                                (0 <= a < apps.len() && 0 <= b < apps[a].backends@.len()
                                    && apps[a].app_id@ == cs.app_id@
                                    && apps[a].backends@[b].address@ == cs.backend_addr@
                                    && apps[a].backends@[b].status == BackendStatus::Closing)
                                    ==> apps[a].backends@[b].active_connections > 0
                            }
                    })
                }
            }),
    {
        if token < self.max_listeners || token - self.max_listeners >= self.max_connections {
            return false;
        }
        let ci = token - self.max_listeners;
        if !self.clients.contains(ci) {
            return false;
        }
        let ghost oldclients = self.clients@;
        let ghost oldapps = self.instances@;
        let cs = match self.clients.take_at(ci) {
            Some(cs) => cs,
            None => {
                proof {
                    assert(false);
                }
                return false;
            },
        };
        self.live = self.live - 1;

        // free the paired back identifier
        let bt = match cs.session.backend_token {
            Some(bt) => bt,
            None => {
                proof {
                    assert(false);
                }
                return false;
            },
        };
        let ghost oldbackend2 = self.backend@;
        let _ = self.backend.take_at(bt - self.max_listeners - self.max_connections);

        // the session's instance exists and counts it
        let ai = match find_app(&self.instances, &cs.app_id) {
            Some(ai) => ai,
            None => {
                proof {
                    let a2 = choose|a2: int|
                        0 <= a2 < oldapps.len() && (#[trigger] oldapps[a2].app_id@)
                            == cs.app_id@ && has_addr(oldapps[a2].backends@, cs.backend_addr@);
                    assert(false);
                }
                return false;
            },
        };
        let bi = match find_backend(&self.instances[ai].backends, &cs.backend_addr) {
            Some(bi) => bi,
            None => {
                proof {
                    let a2 = choose|a2: int|
                        0 <= a2 < oldapps.len() && (#[trigger] oldapps[a2].app_id@)
                            == cs.app_id@ && has_addr(oldapps[a2].backends@, cs.backend_addr@);
                    self.lemma_app_at_seq(oldapps, a2, ai as int);
                    let b2 = choose|b2: int|
                        0 <= b2 < oldapps[a2].backends@.len() && (
                        #[trigger] oldapps[a2].backends@[b2].address@) == cs.backend_addr@;
                    assert(false);
                }
                return false;
            },
        };
        proof {
            assert(slot_weight(oldclients[ci as int], cs.app_id@, cs.backend_addr@) == 1);
            lemma_bound_pos(oldclients, cs.app_id@, cs.backend_addr@, ci as int);
        }
        let mut appe = self.instances.remove(ai);
        let ghost old_bs = appe.backends@;
        let mut b = appe.backends.remove(bi);
        let ghost oldb = b;
        let _ = b.dec_connections();
        if b.status == BackendStatus::Closed {
            // the record's last session is gone and it was draining
            let ghost appe_g = appe;
            self.instances.insert(ai, appe);
            proof {
                let ml = self.max_listeners as int;
                let mc = self.max_connections as int;
                let newapps = self.instances@;
                let newclients = self.clients@;
                assert(newapps =~= oldapps.update(ai as int, appe_g));
                assert(appe_g.backends@ =~= old_bs.remove(bi as int));
                let new_bs = appe_g.backends@;
                assert(newclients == oldclients.update(ci as int, None));
                assert(oldb.active_connections == 1);

                lemma_bound_update(oldclients, ci as int, None, cs.app_id@, cs.backend_addr@);
                assert(bound_count(newclients, cs.app_id@, cs.backend_addr@) == 0);

                let dropped = Backend {
                    active_connections: 0,
                    status: oldb.status,
                    ..oldb
                };
                lemma_sum_backends_update(old_bs, bi as int, dropped);
                lemma_sum_backends_remove(old_bs.update(bi as int, dropped), bi as int);
                assert(old_bs.update(bi as int, dropped).remove(bi as int) =~= new_bs);
                lemma_total_update(oldapps, ai as int, appe_g);
                assert(total_active(newapps) == total_active(oldapps) - 1);

                assert forall|x: int, y: int|
                    0 <= x < y < new_bs.len() implies (#[trigger] new_bs[x].address@) != (
                #[trigger] new_bs[y].address@) by {
                    if y < bi as int {
                        assert(new_bs[x] == old_bs[x] && new_bs[y] == old_bs[y]);
                    } else if x < bi as int {
                        assert(new_bs[x] == old_bs[x] && new_bs[y] == old_bs[y + 1]);
                    } else {
                        assert(new_bs[x] == old_bs[x + 1] && new_bs[y] == old_bs[y + 1]);
                    }
                }
                assert forall|a: int, x: int|
                    0 <= a < newapps.len() && 0 <= x < newapps[a].backends@.len() implies {
                    &&& (#[trigger] newapps[a].backends@[x]).status != BackendStatus::Closed
                    &&& newapps[a].backends@[x].active_connections as nat == bound_count(
                        newclients,
                        newapps[a].app_id@,
                        newapps[a].backends@[x].address@,
                    )
                } by {
                    lemma_bound_update(
                        oldclients,
                        ci as int,
                        None,
                        newapps[a].app_id@,
                        newapps[a].backends@[x].address@,
                    );
                    if a == ai as int {
                        if x < bi as int {
                            assert(newapps[a].backends@[x] == old_bs[x]);
                            assert(oldapps[a].backends@[x] == old_bs[x]);
                            assert(old_bs[x].address@ != old_bs[bi as int].address@);
                            assert(slot_weight(
                                oldclients[ci as int],
                                newapps[a].app_id@,
                                newapps[a].backends@[x].address@,
                            ) == 0);
                        } else {
                            assert(newapps[a].backends@[x] == old_bs[x + 1]);
                            assert(oldapps[a].backends@[x + 1] == old_bs[x + 1]);
                            assert(old_bs[bi as int].address@ != old_bs[x + 1].address@);
                            assert(slot_weight(
                                oldclients[ci as int],
                                newapps[a].app_id@,
                                newapps[a].backends@[x].address@,
                            ) == 0);
                        }
                    } else {
                        assert(newapps[a] == oldapps[a]);
                        self.lemma_app_at_seq(oldapps, a, ai as int);
                        assert(newapps[a].app_id@ != cs.app_id@);
                        assert(slot_weight(
                            oldclients[ci as int],
                            newapps[a].app_id@,
                            newapps[a].backends@[x].address@,
                        ) == 0);
                    }
                }
                // the dropped pair has left the table entirely
                assert forall|a: int, b: int|
                    #![trigger newapps[a].backends@[b]]
                    (0 <= a < newapps.len() && 0 <= b < newapps[a].backends@.len()
                        && newapps[a].app_id@ == cs.app_id@ && newapps[a].backends@[b].address@
                        == cs.backend_addr@) implies false by {
                    self.lemma_app_at_seq(oldapps, a, ai as int);
                    if b < bi as int {
                        assert(new_bs[b] == old_bs[b]);
                        assert(old_bs[b].address@ != old_bs[bi as int].address@);
                    } else {
                        assert(new_bs[b] == old_bs[b + 1]);
                        assert(old_bs[bi as int].address@ != old_bs[b + 1].address@);
                    }
                }
                let ghost dropped_record = true;
                // token geometry: only slot ci and back entry bt moved
                assert(oldbackend2[bt - ml - mc] == Some((ml + ci as int) as usize));
                assert forall|cx: int|
                    0 <= cx < mc implies ((#[trigger] newclients[cx]) matches Some(c) ==> {
                    &&& c.session.wf()
                    &&& c.session.token == Some((ml + cx) as usize)
                    &&& c.session.backend_token matches Some(bt2) && ml + mc <= bt2 < ml + 2 * mc
                        && self.backend@[bt2 - ml - mc] == Some((ml + cx) as usize)
                    &&& has_binding(newapps, c.app_id@, c.backend_addr@)
                }) by {
                    if newclients[cx] is Some {
                        let c = newclients[cx]->Some_0;
                        assert(cx != ci as int);
                        assert(oldclients[cx] == Some(c));
                        let bt2 = c.session.backend_token->0;
                        assert(oldbackend2[bt2 - ml - mc] == Some((ml + cx) as usize));
                        if bt2 - ml - mc == bt - ml - mc {
                            assert(false);
                        }
                        assert(self.backend@[bt2 - ml - mc] == Some((ml + cx) as usize));
                        lemma_bound_pos(newclients, c.app_id@, c.backend_addr@, cx);
                        let a2 = choose|a2: int|
                            0 <= a2 < oldapps.len() && (#[trigger] oldapps[a2].app_id@)
                                == c.app_id@ && has_addr(oldapps[a2].backends@, c.backend_addr@);
                        if a2 == ai as int {
                            let b3 = choose|b3: int|
                                0 <= b3 < old_bs.len() && (#[trigger] old_bs[b3].address@)
                                    == c.backend_addr@;
                            if dropped_record && b3 == bi as int {
                                // nobody is bound to the dropped pair any more
                                assert(bound_count(newclients, c.app_id@, c.backend_addr@) == 0);
                                assert(false);
                            } else if dropped_record {
                                if b3 < bi as int {
                                    assert(new_bs[b3] == old_bs[b3]);
                                } else {
                                    assert(new_bs[b3 - 1] == old_bs[b3]);
                                }
                                assert(has_addr(new_bs, c.backend_addr@));
                            } else {
                                assert(new_bs[b3].address@ == old_bs[b3].address@);
                                assert(has_addr(new_bs, c.backend_addr@));
                            }
                            assert(newapps[a2].app_id@ == c.app_id@);
                        } else {
                            assert(newapps[a2] == oldapps[a2]);
                        }
                        assert(has_binding(newapps, c.app_id@, c.backend_addr@));
                    }
                }
                assert forall|bx: int|
                    0 <= bx < mc implies ((#[trigger] self.backend@[bx]) matches Some(t) ==> {
                    &&& ml <= t < ml + mc
                    &&& newclients[t - ml] matches Some(c) && c.session.backend_token == Some(
                        (ml + mc + bx) as usize,
                    )
                }) by {
                    if self.backend@[bx] is Some {
                        let t = self.backend@[bx]->Some_0;
                        assert(bx != bt - ml - mc);
                        assert(oldbackend2[bx] == Some(t));
                        let c = oldclients[t - ml]->Some_0;
                        if t - ml == ci as int {
                            assert(c == cs);
                            assert(c.session.backend_token == Some((ml + mc + bx) as usize));
                            assert(bx == bt - ml - mc);
                            assert(false);
                        }
                        assert(newclients[t - ml] == oldclients[t - ml]);
                    }
                }
            }
            true
        } else {
            appe.backends.insert(bi, b);
            let ghost appe_g = appe;
            self.instances.insert(ai, appe);
            proof {
                let ml = self.max_listeners as int;
                let mc = self.max_connections as int;
                let newapps = self.instances@;
                let newclients = self.clients@;
                assert(newapps =~= oldapps.update(ai as int, appe_g));
                assert(appe_g.backends@ =~= old_bs.update(bi as int, appe_g.backends@[bi as int]));
                let new_bs = appe_g.backends@;
                let b2 = new_bs[bi as int];
                assert(b2.address@ == oldb.address@);
                assert(b2.active_connections == oldb.active_connections - 1);
                assert(newclients == oldclients.update(ci as int, None));

                lemma_sum_backends_update(old_bs, bi as int, b2);
                lemma_total_update(oldapps, ai as int, appe_g);
                assert(total_active(newapps) == total_active(oldapps) - 1);

                assert forall|x: int, y: int|
                    0 <= x < y < new_bs.len() implies (#[trigger] new_bs[x].address@) != (
                #[trigger] new_bs[y].address@) by {
                    assert(old_bs[x].address@ != old_bs[y].address@);
                    assert(new_bs[x].address@ == old_bs[x].address@);
                    assert(new_bs[y].address@ == old_bs[y].address@);
                }
                assert forall|a: int, x: int|
                    0 <= a < newapps.len() && 0 <= x < newapps[a].backends@.len() implies {
                    &&& (#[trigger] newapps[a].backends@[x]).status != BackendStatus::Closed
                    &&& newapps[a].backends@[x].active_connections as nat == bound_count(
                        newclients,
                        newapps[a].app_id@,
                        newapps[a].backends@[x].address@,
                    )
                } by {
                    lemma_bound_update(
                        oldclients,
                        ci as int,
                        None,
                        newapps[a].app_id@,
                        newapps[a].backends@[x].address@,
                    );
                    if a == ai as int {
                        assert(oldapps[a].backends@[x] == old_bs[x]);
                        if x == bi as int {
                            assert(slot_weight(
                                oldclients[ci as int],
                                newapps[a].app_id@,
                                newapps[a].backends@[x].address@,
                            ) == 1);
                        } else {
                            assert(new_bs[x] == old_bs[x]);
                            assert(new_bs[x].address@ != oldb.address@);
                            assert(slot_weight(
                                oldclients[ci as int],
                                newapps[a].app_id@,
                                newapps[a].backends@[x].address@,
                            ) == 0);
                        }
                    } else {
                        assert(newapps[a] == oldapps[a]);
                        self.lemma_app_at_seq(oldapps, a, ai as int);
                        assert(newapps[a].app_id@ != cs.app_id@);
                        assert(slot_weight(
                            oldclients[ci as int],
                            newapps[a].app_id@,
                            newapps[a].backends@[x].address@,
                        ) == 0);
                    }
                }
                // a record that is still draining still carries sessions
                assert forall|a: int, b: int|
                    #![trigger newapps[a].backends@[b]]
                    (0 <= a < newapps.len() && 0 <= b < newapps[a].backends@.len()
                        && newapps[a].app_id@ == cs.app_id@ && newapps[a].backends@[b].address@
                        == cs.backend_addr@ && newapps[a].backends@[b].status
                        == BackendStatus::Closing) implies newapps[a].backends@[b].active_connections
                        > 0 by {
                    self.lemma_app_at_seq(oldapps, a, ai as int);
                    if b != bi as int {
                        assert(new_bs[b] == old_bs[b]);
                        assert(old_bs[b].address@ != old_bs[bi as int].address@);
                        assert(false);
                    }
                }
                let ghost dropped_record = false;
                // token geometry: only slot ci and back entry bt moved
                assert(oldbackend2[bt - ml - mc] == Some((ml + ci as int) as usize));
                assert forall|cx: int|
                    0 <= cx < mc implies ((#[trigger] newclients[cx]) matches Some(c) ==> {
                    &&& c.session.wf()
                    &&& c.session.token == Some((ml + cx) as usize)
                    &&& c.session.backend_token matches Some(bt2) && ml + mc <= bt2 < ml + 2 * mc
                        && self.backend@[bt2 - ml - mc] == Some((ml + cx) as usize)
                    &&& has_binding(newapps, c.app_id@, c.backend_addr@)
                }) by {
                    if newclients[cx] is Some {
                        let c = newclients[cx]->Some_0;
                        assert(cx != ci as int);
                        assert(oldclients[cx] == Some(c));
                        let bt2 = c.session.backend_token->0;
                        assert(oldbackend2[bt2 - ml - mc] == Some((ml + cx) as usize));
                        if bt2 - ml - mc == bt - ml - mc {
                            assert(false);
                        }
                        assert(self.backend@[bt2 - ml - mc] == Some((ml + cx) as usize));
                        lemma_bound_pos(newclients, c.app_id@, c.backend_addr@, cx);
                        let a2 = choose|a2: int|
                            0 <= a2 < oldapps.len() && (#[trigger] oldapps[a2].app_id@)
                                == c.app_id@ && has_addr(oldapps[a2].backends@, c.backend_addr@);
                        if a2 == ai as int {
                            let b3 = choose|b3: int|
                                0 <= b3 < old_bs.len() && (#[trigger] old_bs[b3].address@)
                                    == c.backend_addr@;
                            if dropped_record && b3 == bi as int {
                                // nobody is bound to the dropped pair any more
                                assert(bound_count(newclients, c.app_id@, c.backend_addr@) == 0);
                                assert(false);
                            } else if dropped_record {
                                if b3 < bi as int {
                                    assert(new_bs[b3] == old_bs[b3]);
                                } else {
                                    assert(new_bs[b3 - 1] == old_bs[b3]);
                                }
                                assert(has_addr(new_bs, c.backend_addr@));
                            } else {
                                assert(new_bs[b3].address@ == old_bs[b3].address@);
                                assert(has_addr(new_bs, c.backend_addr@));
                            }
                            assert(newapps[a2].app_id@ == c.app_id@);
                        } else {
                            assert(newapps[a2] == oldapps[a2]);
                        }
                        assert(has_binding(newapps, c.app_id@, c.backend_addr@));
                    }
                }
                assert forall|bx: int|
                    0 <= bx < mc implies ((#[trigger] self.backend@[bx]) matches Some(t) ==> {
                    &&& ml <= t < ml + mc
                    &&& newclients[t - ml] matches Some(c) && c.session.backend_token == Some(
                        (ml + mc + bx) as usize,
                    )
                }) by {
                    if self.backend@[bx] is Some {
                        let t = self.backend@[bx]->Some_0;
                        assert(bx != bt - ml - mc);
                        assert(oldbackend2[bx] == Some(t));
                        let c = oldclients[t - ml]->Some_0;
                        if t - ml == ci as int {
                            assert(c == cs);
                            assert(c.session.backend_token == Some((ml + mc + bx) as usize));
                            assert(bx == bt - ml - mc);
                            assert(false);
                        }
                        assert(newclients[t - ml] == oldclients[t - ml]);
                    }
                }
            }
            true
        }
    }

}

/// Replacing one live session with one that kept its identifiers and
/// its instance binding leaves the server well formed.
proof fn lemma_wf_after_session_update(old_s: Server, new_s: Server, ci: int, newcs: ClientSlot)
    requires
        old_s.wf(),
        new_s.instances == old_s.instances,
        new_s.backend == old_s.backend,
        new_s.listeners == old_s.listeners,
        new_s.fronts == old_s.fronts,
        new_s.max_listeners == old_s.max_listeners,
        new_s.max_connections == old_s.max_connections,
        new_s.max_failures == old_s.max_failures,
        new_s.live == old_s.live,
        new_s.accept_rejected == old_s.accept_rejected,
        new_s.accepting == old_s.accepting,
        new_s.stopping == old_s.stopping,
        0 <= ci < old_s.max_connections as int,
        old_s.clients@[ci] matches Some(oldcs) && {
            &&& newcs.app_id == oldcs.app_id
            &&& newcs.backend_addr == oldcs.backend_addr
            &&& newcs.session.token == oldcs.session.token
            &&& newcs.session.backend_token == oldcs.session.backend_token
        },
        newcs.session.wf(),
        new_s.clients@ == old_s.clients@.update(ci, Some(newcs)),
    ensures
        new_s.wf(),
{
    let ml = old_s.max_listeners as int;
    let mc = old_s.max_connections as int;
    let oldclients = old_s.clients@;
    let newclients = new_s.clients@;
    let oldcs = oldclients[ci]->Some_0;
    lemma_count_some_update(oldclients, ci, Some(newcs));
    assert(count_some(newclients) == count_some(oldclients));
    assert forall|a: int, x: int|
        0 <= a < new_s.instances@.len() && 0 <= x < new_s.instances@[a].backends@.len() implies (
    #[trigger] new_s.instances@[a].backends@[x]).active_connections as nat == bound_count(
        newclients,
        new_s.instances@[a].app_id@,
        new_s.instances@[a].backends@[x].address@,
    ) by {
        lemma_bound_update(
            oldclients,
            ci,
            Some(newcs),
            new_s.instances@[a].app_id@,
            new_s.instances@[a].backends@[x].address@,
        );
        assert(slot_weight(
            Some(newcs),
            new_s.instances@[a].app_id@,
            new_s.instances@[a].backends@[x].address@,
        ) == slot_weight(
            oldclients[ci],
            new_s.instances@[a].app_id@,
            new_s.instances@[a].backends@[x].address@,
        ));
    }
    assert forall|cx: int|
        0 <= cx < mc implies ((#[trigger] newclients[cx]) matches Some(c) ==> {
        &&& c.session.wf()
        &&& c.session.token == Some((ml + cx) as usize)
        &&& c.session.backend_token matches Some(bt) && ml + mc <= bt < ml + 2 * mc
            && new_s.backend@[bt - ml - mc] == Some((ml + cx) as usize)
        &&& has_binding(new_s.instances@, c.app_id@, c.backend_addr@)
    }) by {
        if newclients[cx] is Some {
            let c = newclients[cx]->Some_0;
            if cx == ci {
                assert(c == newcs);
                assert(has_binding(old_s.instances@, oldcs.app_id@, oldcs.backend_addr@));
            } else {
                assert(oldclients[cx] == Some(c));
            }
        }
    }
    assert forall|bx: int|
        0 <= bx < mc implies ((#[trigger] new_s.backend@[bx]) matches Some(t) ==> {
        &&& ml <= t < ml + mc
        &&& newclients[t - ml] matches Some(c) && c.session.backend_token == Some(
            (ml + mc + bx) as usize,
        )
    }) by {
        if new_s.backend@[bx] is Some {
            let t = new_s.backend@[bx]->Some_0;
            assert(old_s.backend@[bx] == Some(t));
            if t - ml == ci {
                assert(newclients[t - ml] == Some(newcs));
            } else {
                assert(newclients[t - ml] == oldclients[t - ml]);
            }
        }
    }
}

impl Server {
    /// How many bytes a front read may hand to this session right now.
    pub open spec fn spec_front_room(&self, token: usize) -> nat {
        let ml = self.max_listeners as int;
        let mc = self.max_connections as int;
        if ml <= token < ml + mc && (self.clients@[token - ml] matches Some(cs)
            && cs.session.front_buf@.mode == crate::buffer::BufferMode::Fill) {
            let cs = self.clients@[token - ml]->Some_0;
            let room = cs.session.front_buf@.capacity - cs.session.front_buf@.data.len();
            let head = usize::MAX - cs.session.rx_count;
            if room <= head {
                room as nat
            } else {
                head as nat
            }
        } else {
            0
        }
    }

    /// How many bytes a back read may hand to this session right now.
    pub open spec fn spec_back_room(&self, token: usize) -> nat {
        let ml = self.max_listeners as int;
        let mc = self.max_connections as int;
        if ml <= token < ml + mc && (self.clients@[token - ml] matches Some(cs)
            && cs.session.back_buf@.mode == crate::buffer::BufferMode::Fill) {
            let cs = self.clients@[token - ml]->Some_0;
            (cs.session.back_buf@.capacity - cs.session.back_buf@.data.len()) as nat
        } else {
            0
        }
    }

    /// Bytes waiting to go to the back (the front buffer's content).
    pub open spec fn spec_front_pending(&self, token: usize) -> Seq<u8> {
        let ml = self.max_listeners as int;
        let mc = self.max_connections as int;
        if ml <= token < ml + mc && self.clients@[token - ml] is Some {
            self.clients@[token - ml]->Some_0.session.front_buf@.data
        } else {
            Seq::empty()
        }
    }

    /// Bytes waiting to go to the front (the back buffer's content).
    pub open spec fn spec_back_pending(&self, token: usize) -> Seq<u8> {
        let ml = self.max_listeners as int;
        let mc = self.max_connections as int;
        if ml <= token < ml + mc && self.clients@[token - ml] is Some {
            self.clients@[token - ml]->Some_0.session.back_buf@.data
        } else {
            Seq::empty()
        }
    }

    /// The session stored at a front identifier.
    pub fn get_session(&self, token: usize) -> (r: Option<&ClientSlot>)
        requires
            self.wf(),
        ensures
            ({
                let ml = self.max_listeners as int;
                let mc = self.max_connections as int;
                match r {
                    Some(cs) => ml <= token < ml + mc && self.clients@[token - ml] == Some(*cs),
                    None => !(ml <= token < ml + mc) || self.clients@[token - ml] is None,
                }
            }),
    {
        if token < self.max_listeners || token - self.max_listeners >= self.max_connections {
            return None;
        }
        self.clients.get(token - self.max_listeners)
    }

    /// Bytes arrived on a session's front socket (or a would-block or
    /// an error): the session advances exactly as `Client::readable`
    /// says; a would-block or an error leaves everything as it was.
    /// `false` when nothing lives at the identifier.
    pub fn client_readable(&mut self, token: usize, outcome: crate::session::ReadOutcome) -> (r:
        bool)
        requires
            old(self).wf(),
            outcome matches crate::session::ReadOutcome::Data(b) ==> ({
                let ml = old(self).max_listeners as int;
                let mc = old(self).max_connections as int;
                &&& ml <= token < ml + mc
                &&& old(self).clients@[token - ml] matches Some(cs)
                    && cs.session.front_buf@.mode == crate::buffer::BufferMode::Fill
                &&& b@.len() <= old(self).spec_front_room(token)
            }),
        ensures
            final(self).wf(),
            final(self).instances == old(self).instances,
            final(self).live == old(self).live,
            ({
                let ml = old(self).max_listeners as int;
                let mc = old(self).max_connections as int;
                &&& r == (ml <= token < ml + mc && old(self).clients@[token - ml] is Some)
                &&& (!(outcome matches crate::session::ReadOutcome::Data(_)) ==> *final(self)
                    == *old(self))
                &&& (outcome matches crate::session::ReadOutcome::Data(b) ==> (r ==> {
                    let oldcs = old(self).clients@[token - ml]->Some_0;
                    &&& final(self).clients@[token - ml] matches Some(cs)
                    &&& cs.session.front_buf@.data == oldcs.session.front_buf@.data + b@
                    &&& cs.session.front_buf@.mode == crate::buffer::BufferMode::Fill
                    &&& cs.session.front_buf@.capacity == oldcs.session.front_buf@.capacity
                    &&& cs.session.front_log@ == oldcs.session.front_log@ + b@
                    &&& cs.session.rx_count == oldcs.session.rx_count + b@.len()
                    &&& cs.session.back_buf == oldcs.session.back_buf
                    &&& cs.session.status == oldcs.session.status
                }))
            }),
    {
        let live = token >= self.max_listeners && token - self.max_listeners
            < self.max_connections && self.clients.contains(token - self.max_listeners);
        match outcome {
            crate::session::ReadOutcome::Data(_) => {},
            _ => {
                return live;
            },
        }
        if !live {
            return false;
        }
        let ci = token - self.max_listeners;
        let ghost old_s = *self;
        match self.clients.take_at(ci) {
            None => {
                proof {
                    assert(false);
                }
                false
            },
            Some(mut cs) => {
                cs.session.readable(outcome);
                let ghost newcs = cs;
                self.clients.put_at(ci, cs);
                proof {
                    assert(self.clients@ == old(self).clients@.update(ci as int, Some(newcs)));
                    lemma_wf_after_session_update(old_s, *self, ci as int, newcs);
                }
                true
            },
        }
    }

    /// The back socket took `n` pending bytes (or blocked, or failed):
    /// the session advances as `Client::back_writable` says; an error
    /// leaves everything as it was.
    pub fn client_back_writable(&mut self, token: usize, outcome: crate::session::WriteOutcome)
        -> (r: bool)
        requires
            old(self).wf(),
            outcome matches crate::session::WriteOutcome::Wrote(n) ==> 0 < n <= old(
                self,
            ).spec_front_pending(token).len(),
        ensures
            final(self).wf(),
            final(self).instances == old(self).instances,
            final(self).live == old(self).live,
            ({
                let ml = old(self).max_listeners as int;
                let mc = old(self).max_connections as int;
                &&& r == (ml <= token < ml + mc && old(self).clients@[token - ml] is Some)
                &&& (outcome matches crate::session::WriteOutcome::Failed ==> *final(self) == *old(
                    self,
                ))
                &&& (!r ==> *final(self) == *old(self))
                &&& (outcome matches crate::session::WriteOutcome::Wrote(n) ==> (r ==> {
                    let oldcs = old(self).clients@[token - ml]->Some_0;
                    &&& final(self).clients@[token - ml] matches Some(cs)
                    &&& cs.session.front_buf@.data == oldcs.session.front_buf@.data.skip(n as int)
                    &&& cs.session.front_buf@.mode == (if oldcs.session.front_buf@.data.len()
                        == n {
                        crate::buffer::BufferMode::Fill
                    } else {
                        crate::buffer::BufferMode::Drain
                    })
                    &&& cs.session.front_buf@.capacity == oldcs.session.front_buf@.capacity
                    &&& cs.session.back_delivered@ == oldcs.session.back_delivered@
                        + oldcs.session.front_buf@.data.take(n as int)
                    &&& cs.session.back_buf == oldcs.session.back_buf
                    &&& cs.session.status == oldcs.session.status
                }))
            }),
    {
        let live = token >= self.max_listeners && token - self.max_listeners
            < self.max_connections && self.clients.contains(token - self.max_listeners);
        match outcome {
            crate::session::WriteOutcome::Failed => {
                return live;
            },
            _ => {},
        }
        if !live {
            return false;
        }
        let ci = token - self.max_listeners;
        let ghost old_s = *self;
        match self.clients.take_at(ci) {
            None => {
                proof {
                    assert(false);
                }
                false
            },
            Some(mut cs) => {
                cs.session.back_writable(outcome);
                let ghost newcs = cs;
                self.clients.put_at(ci, cs);
                proof {
                    assert(self.clients@ == old(self).clients@.update(ci as int, Some(newcs)));
                    lemma_wf_after_session_update(old_s, *self, ci as int, newcs);
                }
                true
            },
        }
    }

    /// Bytes arrived on a session's back socket.
    pub fn client_back_readable(&mut self, token: usize, outcome: crate::session::ReadOutcome)
        -> (r: bool)
        requires
            old(self).wf(),
            outcome matches crate::session::ReadOutcome::Data(b) ==> ({
                let ml = old(self).max_listeners as int;
                let mc = old(self).max_connections as int;
                &&& ml <= token < ml + mc
                &&& old(self).clients@[token - ml] matches Some(cs)
                    && cs.session.back_buf@.mode == crate::buffer::BufferMode::Fill
                &&& b@.len() <= old(self).spec_back_room(token)
            }),
        ensures
            final(self).wf(),
            final(self).instances == old(self).instances,
            final(self).live == old(self).live,
            ({
                let ml = old(self).max_listeners as int;
                let mc = old(self).max_connections as int;
                &&& r == (ml <= token < ml + mc && old(self).clients@[token - ml] is Some)
                &&& (!(outcome matches crate::session::ReadOutcome::Data(_)) ==> *final(self)
                    == *old(self))
                &&& (outcome matches crate::session::ReadOutcome::Data(b) ==> (r ==> {
                    let oldcs = old(self).clients@[token - ml]->Some_0;
                    &&& final(self).clients@[token - ml] matches Some(cs)
                    &&& cs.session.back_buf@.data == oldcs.session.back_buf@.data + b@
                    &&& cs.session.back_buf@.mode == crate::buffer::BufferMode::Fill
                    &&& cs.session.back_buf@.capacity == oldcs.session.back_buf@.capacity
                    &&& cs.session.back_log@ == oldcs.session.back_log@ + b@
                    &&& cs.session.front_buf == oldcs.session.front_buf
                    &&& cs.session.status == oldcs.session.status
                }))
            }),
    {
        let live = token >= self.max_listeners && token - self.max_listeners
            < self.max_connections && self.clients.contains(token - self.max_listeners);
        match outcome {
            crate::session::ReadOutcome::Data(_) => {},
            _ => {
                return live;
            },
        }
        if !live {
            return false;
        }
        let ci = token - self.max_listeners;
        let ghost old_s = *self;
        match self.clients.take_at(ci) {
            None => {
                proof {
                    assert(false);
                }
                false
            },
            Some(mut cs) => {
                cs.session.back_readable(outcome);
                let ghost newcs = cs;
                self.clients.put_at(ci, cs);
                proof {
                    assert(self.clients@ == old(self).clients@.update(ci as int, Some(newcs)));
                    lemma_wf_after_session_update(old_s, *self, ci as int, newcs);
                }
                true
            },
        }
    }

    /// The front socket took `n` pending response bytes.
    pub fn client_writable(&mut self, token: usize, outcome: crate::session::WriteOutcome) -> (r:
        bool)
        requires
            old(self).wf(),
            outcome matches crate::session::WriteOutcome::Wrote(n) ==> (0 < n <= old(
                self,
            ).spec_back_pending(token).len() && {
                let ml = old(self).max_listeners as int;
                old(self).clients@[token - ml]->Some_0.session.tx_count + n <= usize::MAX
            }),
        ensures
            final(self).wf(),
            final(self).instances == old(self).instances,
            final(self).live == old(self).live,
            ({
                let ml = old(self).max_listeners as int;
                let mc = old(self).max_connections as int;
                &&& r == (ml <= token < ml + mc && old(self).clients@[token - ml] is Some)
                &&& (outcome matches crate::session::WriteOutcome::Failed ==> *final(self) == *old(
                    self,
                ))
                &&& (!r ==> *final(self) == *old(self))
                &&& (outcome matches crate::session::WriteOutcome::Wrote(n) ==> (r ==> {
                    let oldcs = old(self).clients@[token - ml]->Some_0;
                    &&& final(self).clients@[token - ml] matches Some(cs)
                    &&& cs.session.back_buf@.data == oldcs.session.back_buf@.data.skip(n as int)
                    &&& cs.session.back_buf@.mode == (if oldcs.session.back_buf@.data.len() == n {
                        crate::buffer::BufferMode::Fill
                    } else {
                        crate::buffer::BufferMode::Drain
                    })
                    &&& cs.session.back_buf@.capacity == oldcs.session.back_buf@.capacity
                    &&& cs.session.front_delivered@ == oldcs.session.front_delivered@
                        + oldcs.session.back_buf@.data.take(n as int)
                    &&& cs.session.tx_count == oldcs.session.tx_count + n
                    &&& cs.session.front_buf == oldcs.session.front_buf
                    &&& cs.session.status == oldcs.session.status
                }))
            }),
    {
        let live = token >= self.max_listeners && token - self.max_listeners
            < self.max_connections && self.clients.contains(token - self.max_listeners);
        match outcome {
            crate::session::WriteOutcome::Failed => {
                return live;
            },
            _ => {},
        }
        if !live {
            return false;
        }
        let ci = token - self.max_listeners;
        let ghost old_s = *self;
        match self.clients.take_at(ci) {
            None => {
                proof {
                    assert(false);
                }
                false
            },
            Some(mut cs) => {
                cs.session.writable(outcome);
                let ghost newcs = cs;
                self.clients.put_at(ci, cs);
                proof {
                    assert(self.clients@ == old(self).clients@.update(ci as int, Some(newcs)));
                    lemma_wf_after_session_update(old_s, *self, ci as int, newcs);
                }
                true
            },
        }
    }

    /// The front peer hung up; `Some(CloseClient)` tells the caller to
    /// close the session now.
    pub fn client_front_hup(&mut self, token: usize) -> (r: Option<crate::events::ClientResult>)
        requires
            old(self).wf(),
        ensures
            final(self).wf(),
            final(self).instances == old(self).instances,
            final(self).live == old(self).live,
            r is None ==> *final(self) == *old(self),
            ({
                let ml = old(self).max_listeners as int;
                let mc = old(self).max_connections as int;
                &&& (r is Some <==> (ml <= token < ml + mc && old(self).clients@[token - ml]
                    is Some))
                &&& (r matches Some(res) ==> (final(self).clients@[token - ml] matches Some(cs)
                    && {
                    let was = old(self).clients@[token - ml]->Some_0.session.status;
                    &&& ((was == crate::session::ConnectionStatus::ServerClosed || was
                        == crate::session::ConnectionStatus::ClientConnected) ==> (
                    cs.session.status == crate::session::ConnectionStatus::Closed && res
                        == crate::events::ClientResult::CloseClient))
                    &&& (!(was == crate::session::ConnectionStatus::ServerClosed || was
                        == crate::session::ConnectionStatus::ClientConnected) ==> (
                    cs.session.status == crate::session::ConnectionStatus::ClientClosed && res
                        == crate::events::ClientResult::Continue))
                }))
            }),
    {
        let live = token >= self.max_listeners && token - self.max_listeners
            < self.max_connections && self.clients.contains(token - self.max_listeners);
        if !live {
            return None;
        }
        let ci = token - self.max_listeners;
        let ghost old_s = *self;
        match self.clients.take_at(ci) {
            None => {
                proof {
                    assert(false);
                }
                None
            },
            Some(mut cs) => {
                let res = cs.session.front_hup();
                let ghost newcs = cs;
                self.clients.put_at(ci, cs);
                proof {
                    assert(self.clients@ == old(self).clients@.update(ci as int, Some(newcs)));
                    lemma_wf_after_session_update(old_s, *self, ci as int, newcs);
                }
                Some(res)
            },
        }
    }

    /// The back peer hung up; symmetric to `client_front_hup`.
    pub fn client_back_hup(&mut self, token: usize) -> (r: Option<crate::events::ClientResult>)
        requires
            old(self).wf(),
        ensures
            final(self).wf(),
            final(self).instances == old(self).instances,
            final(self).live == old(self).live,
            r is None ==> *final(self) == *old(self),
            ({
                let ml = old(self).max_listeners as int;
                let mc = old(self).max_connections as int;
                &&& (r is Some <==> (ml <= token < ml + mc && old(self).clients@[token - ml]
                    is Some))
                &&& (r matches Some(res) ==> (final(self).clients@[token - ml] matches Some(cs)
                    && {
                    let was = old(self).clients@[token - ml]->Some_0.session.status;
                    &&& (was == crate::session::ConnectionStatus::ClientClosed ==> (
                    cs.session.status == crate::session::ConnectionStatus::Closed && res
                        == crate::events::ClientResult::CloseClient))
                    &&& (was != crate::session::ConnectionStatus::ClientClosed ==> (
                    cs.session.status == crate::session::ConnectionStatus::ServerClosed && res
                        == crate::events::ClientResult::Continue))
                }))
            }),
    {
        let live = token >= self.max_listeners && token - self.max_listeners
            < self.max_connections && self.clients.contains(token - self.max_listeners);
        if !live {
            return None;
        }
        let ci = token - self.max_listeners;
        let ghost old_s = *self;
        match self.clients.take_at(ci) {
            None => {
                proof {
                    assert(false);
                }
                None
            },
            Some(mut cs) => {
                let res = cs.session.back_hup();
                let ghost newcs = cs;
                self.clients.put_at(ci, cs);
                proof {
                    assert(self.clients@ == old(self).clients@.update(ci as int, Some(newcs)));
                    lemma_wf_after_session_update(old_s, *self, ci as int, newcs);
                }
                Some(res)
            },
        }
    }

    /// The interest set a session wants re-registered, per the
    /// derivation rule of the session itself.
    pub fn client_required_events(&self, token: usize) -> (r: Option<
        crate::events::RequiredEvents,
    >)
        requires
            self.wf(),
        ensures
            ({
                let ml = self.max_listeners as int;
                let mc = self.max_connections as int;
                match r {
                    Some(ev) => ml <= token < ml + mc && (self.clients@[token - ml] matches Some(
                        cs,
                    ) && {
                        &&& ev.spec_front_readable() == cs.session.wants_front_read()
                        &&& ev.spec_front_writable() == cs.session.wants_front_write()
                        &&& ev.spec_back_readable() == cs.session.wants_back_read()
                        &&& ev.spec_back_writable() == cs.session.wants_back_write()
                    }),
                    None => !(ml <= token < ml + mc) || self.clients@[token - ml] is None,
                }
            }),
    {
        match self.get_session(token) {
            Some(cs) => Some(cs.session.required_events()),
            None => None,
        }
    }
}

// ---------------------------------------------------------------------------
// Address text: back-end addresses are written `ip:port`.
// ---------------------------------------------------------------------------

pub open spec fn spec_digit(d: nat) -> char {
    if d == 0 {
        '0'
    } else if d == 1 {
        '1'
    } else if d == 2 {
        '2'
    } else if d == 3 {
        '3'
    } else if d == 4 {
        '4'
    } else if d == 5 {
        '5'
    } else if d == 6 {
        '6'
    } else if d == 7 {
        '7'
    } else if d == 8 {
        '8'
    } else {
        '9'
    }
}

/// Decimal digits of a number, most significant first.
pub open spec fn spec_dec(n: nat) -> Seq<char>
    decreases n,
{
    if n < 10 {
        seq![spec_digit(n)]
    } else {
        spec_dec(n / 10).push(spec_digit(n % 10))
    }
}

fn digit_str(d: u16) -> (r: &'static str)
    requires
        d < 10,
    ensures
        r@ == seq![spec_digit(d as nat)],
{
    proof {
        reveal_strlit("0");
        reveal_strlit("1");
        reveal_strlit("2");
        reveal_strlit("3");
        reveal_strlit("4");
        reveal_strlit("5");
        reveal_strlit("6");
        reveal_strlit("7");
        reveal_strlit("8");
        reveal_strlit("9");
    }
    let r = match d {
        0 => "0",
        1 => "1",
        2 => "2",
        3 => "3",
        4 => "4",
        5 => "5",
        6 => "6",
        7 => "7",
        8 => "8",
        _ => "9",
    };
    proof {
        assert(r@ =~= seq![spec_digit(d as nat)]);
    }
    r
}

/// Prints a port number in decimal.
pub fn u16_to_string(n: u16) -> (s: String)
    ensures
        s@ == spec_dec(n as nat),
    decreases n,
{
    if n < 10 {
        digit_str(n).to_owned()
    } else {
        let mut s = u16_to_string(n / 10);
        s.append(digit_str(n % 10));
        proof {
            assert(s@ =~= spec_dec((n / 10) as nat).push(spec_digit((n % 10) as nat)));
        }
        s
    }
}

/// The `ip:port` form of a back-end address.
pub open spec fn spec_addr(ip: Seq<char>, port: u16) -> Seq<char> {
    ip + seq![':'] + spec_dec(port as nat)
}

pub fn instance_addr(ip: &String, port: u16) -> (s: String)
    ensures
        s@ == spec_addr(ip@, port),
{
    let mut s = ip.clone();
    proof {
        reveal_strlit(":");
    }
    s.append(":");
    s.append(u16_to_string(port).as_str());
    proof {
        assert(s@ =~= spec_addr(ip@, port));
    }
    s
}

/// What the supervisor posts on a TCP proxy loop's channel: an order,
/// or the request to stop the loop.
pub enum TcpProxyOrder {
    Command(crate::messages::Order),
    Stop,
}

impl Server {
    /// Stops accepting and lets the live sessions drain; the loop is
    /// over once the slab empties.  The listener slots are freed; the
    /// caller closes their sockets.
    pub fn soft_stop(&mut self)
        requires
            old(self).wf(),
        ensures
            final(self).wf(),
            !final(self).accepting,
            final(self).stopping,
            final(self).clients == old(self).clients,
            final(self).backend == old(self).backend,
            final(self).instances == old(self).instances,
            final(self).live == old(self).live,
            forall|i: int|
                0 <= i < final(self).listeners@.len() ==> final(self).listeners@[i] is None,
    {
        self.accepting = false;
        self.stopping = true;
        self.listeners.clear();
        self.fronts.clear();
    }

    /// Tears everything down at once: every handle is dropped and all
    /// accounting returns to zero.
    pub fn hard_stop(&mut self)
        requires
            old(self).wf(),
        ensures
            final(self).wf(),
            !final(self).accepting,
            final(self).stopping,
            final(self).live == 0,
            final(self).instances@.len() == 0,
            forall|i: int| 0 <= i < final(self).clients@.len() ==> final(self).clients@[i] is None,
    {
        self.accepting = false;
        self.stopping = true;
        self.listeners.clear();
        self.fronts.clear();
        self.clients.clear();
        self.backend.clear();
        self.instances = Vec::new();
        self.live = 0;
    }

    /// A stopping loop is over once no session is left.
    pub fn done(&self) -> (r: bool)
        ensures
            r == (self.stopping && self.live == 0),
    {
        self.stopping && self.live == 0
    }

    /// Applies one control-channel order.  Socket work stays with the
    /// caller: `bound` is the outcome of the bind a `AddTcpFront`
    /// asked for; orders of other protocol families are refused.
    pub fn notify(&mut self, message: &TcpProxyOrder, bound: bool) -> (r:
        crate::messages::ServerMessageStatus)
        requires
            old(self).wf(),
        ensures
            final(self).wf(),
            message matches TcpProxyOrder::Stop ==> final(self).stopping,
            message matches TcpProxyOrder::Command(o) ==> match o {
                crate::messages::Order::SoftStop => !final(self).accepting && final(self).stopping
                    && final(self).live == old(self).live && r
                    == crate::messages::ServerMessageStatus::Processing,
                crate::messages::Order::HardStop => final(self).stopping && final(self).live == 0
                    && r == crate::messages::ServerMessageStatus::Success,
                crate::messages::Order::AddInstance(i) => has_binding(
                    final(self).instances@,
                    i.app_id@,
                    spec_addr(i.ip_address@, i.port),
                ) && r == crate::messages::ServerMessageStatus::Success,
                crate::messages::Order::RemoveInstance(i) => r
                    == crate::messages::ServerMessageStatus::Success && (forall|a: int, b: int|
                    #![trigger final(self).instances@[a].backends@[b]]
                    {
                        let apps = final(self).instances@;
                        (0 <= a < apps.len() && 0 <= b < apps[a].backends@.len()
                            && apps[a].app_id@ == i.app_id@ && apps[a].backends@[b].address@
                            == spec_addr(i.ip_address@, i.port)) ==> apps[a].backends@[b].status
                            == BackendStatus::Closing
                    }),
                crate::messages::Order::AddTcpFront(_) => (r
                    == crate::messages::ServerMessageStatus::Success <==> (bound && exists|i: int|
                    0 <= i < old(self).listeners@.len() && old(self).listeners@[i] is None)),
                crate::messages::Order::RemoveTcpFront(f) => {
                    &&& r == crate::messages::ServerMessageStatus::Success
                    &&& final(self).clients == old(self).clients
                    &&& final(self).instances == old(self).instances
                    &&& ((fronts_token(old(self).fronts@, f.app_id@) matches Some(tok) && tok
                        < old(self).max_listeners && old(self).listeners@[tok as int] is Some)
                        ==> fronts_token(final(self).fronts@, f.app_id@) is None)
                    &&& (fronts_token(old(self).fronts@, f.app_id@) is None ==> *final(self)
                        == *old(self))
                },
                crate::messages::Order::Status => r
                    == crate::messages::ServerMessageStatus::Success && *final(self) == *old(self),
                _ => (r matches crate::messages::ServerMessageStatus::Error(_)) && *final(self)
                    == *old(self),
            },
    {
        match message {
            TcpProxyOrder::Command(order) => match order {
                crate::messages::Order::AddTcpFront(front) => {
                    match self.add_tcp_front(front.port, &front.app_id, bound) {
                        Some(_) => crate::messages::ServerMessageStatus::Success,
                        None => crate::messages::ServerMessageStatus::Error(
                            "could not add tcp front".to_owned(),
                        ),
                    }
                },
                crate::messages::Order::RemoveTcpFront(front) => {
                    let _ = self.remove_tcp_front(&front.app_id);
                    crate::messages::ServerMessageStatus::Success
                },
                crate::messages::Order::AddInstance(instance) => {
                    let addr = instance_addr(&instance.ip_address, instance.port);
                    let _ = self.add_instance(&instance.app_id, &addr);
                    crate::messages::ServerMessageStatus::Success
                },
                crate::messages::Order::RemoveInstance(instance) => {
                    let addr = instance_addr(&instance.ip_address, instance.port);
                    let _ = self.remove_instance(&instance.app_id, &addr);
                    crate::messages::ServerMessageStatus::Success
                },
                crate::messages::Order::SoftStop => {
                    self.soft_stop();
                    crate::messages::ServerMessageStatus::Processing
                },
                crate::messages::Order::HardStop => {
                    self.hard_stop();
                    crate::messages::ServerMessageStatus::Success
                },
                crate::messages::Order::Status => crate::messages::ServerMessageStatus::Success,
                _ => crate::messages::ServerMessageStatus::Error(
                    "unsupported message, ignoring".to_owned(),
                ),
            },
            TcpProxyOrder::Stop => {
                self.hard_stop();
                crate::messages::ServerMessageStatus::Success
            },
        }
    }
}

// ---------------------------------------------------------------------------
// The slab and accounting invariants, stated on their own.
// ---------------------------------------------------------------------------

/// Every session's front and back identifiers lie in their ranges and
/// resolve back to that session.
pub proof fn lemma_session_identifiers(s: Server, ci: int)
    requires
        s.wf(),
        0 <= ci < s.max_connections as int,
        s.clients@[ci] is Some,
    ensures
        ({
            let ml = s.max_listeners as int;
            let mc = s.max_connections as int;
            let cs = s.clients@[ci]->Some_0;
            &&& cs.session.token == Some((ml + ci) as usize)
            &&& cs.session.backend_token matches Some(bt) && ml + mc <= bt < ml + 2 * mc
                && s.backend@[bt - ml - mc] == Some((ml + ci) as usize)
        }),
{
}

/// The `active_connections` summed over all instances equal the count
/// of live sessions, and each single instance counts exactly the
/// sessions accounted to it.
pub proof fn lemma_connection_accounting(s: Server)
    requires
        s.wf(),
    ensures
        total_active(s.instances@) == count_some(s.clients@),
        total_active(s.instances@) == s.live,
        forall|a: int, b: int|
            0 <= a < s.instances@.len() && 0 <= b < s.instances@[a].backends@.len() ==> (
            #[trigger] s.instances@[a].backends@[b]).active_connections as nat == bound_count(
                s.clients@,
                s.instances@[a].app_id@,
                s.instances@[a].backends@[b].address@,
            ),
{
}

/// A draining instance is never among the candidates a new session
/// may pick.
pub proof fn lemma_draining_unpickable(bs: Seq<Backend>, max_failures: usize, k: int)
    requires
        0 <= k < healthy(bs, max_failures).len(),
    ensures
        healthy(bs, max_failures)[k].status == BackendStatus::Normal,
        healthy(bs, max_failures)[k].failures < max_failures,
{
    lemma_healthy_member(bs, max_failures, k);
}

/// Relies on rand::random: a pseudo-random machine word; nothing is
/// promised of its value.
#[verifier::external_body]
fn random_u64() -> u64 {
    rand::random::<u64>()
}

impl Server {
    /// `pick_backend` with the draw made here: some healthy instance
    /// of the listener's application, or `NoBackendAvailable`.
    pub fn pick_backend_random(&self, token: usize) -> (r: Result<String, ConnectionError>)
        requires
            self.wf(),
        ensures
            ({
                let ml = self.max_listeners as int;
                match r {
                    Ok(addr) => exists|a: int, k: int|
                        #![trigger self.instances@[a].app_id@, healthy(self.instances@[a].backends@, self.max_failures)[k]]
                        {
                            &&& token < ml
                            &&& self.listeners@[token as int] matches Some(l)
                            &&& 0 <= a < self.instances@.len()
                            &&& self.instances@[a].app_id@ == l.app_id@
                            &&& {
                                let hs = healthy(self.instances@[a].backends@, self.max_failures);
                                0 <= k < hs.len() && addr@ == hs[k].address@
                            }
                        },
                    Err(e) => {
                        &&& e == ConnectionError::NoBackendAvailable
                        &&& (token < ml ==> (self.listeners@[token as int] matches Some(l) ==> (
                        forall|a: int|
                            0 <= a < self.instances@.len() && (#[trigger] self.instances@[a].app_id@)
                                == l.app_id@ ==> healthy(
                                self.instances@[a].backends@,
                                self.max_failures,
                            ).len() == 0)))
                    },
                }
            }),
    {
        let rnd = random_u64();
        self.pick_backend(token, rnd as usize)
    }
}

} // verus!
