use vstd::prelude::*;

use crate::messages::HttpFront;
use vstd::string::StringSliceAdditionalSpecFns;

verus! {

// ---------------------------------------------------------------------------
// The HTTP routing table: hostname, then longest path prefix.  Matching
// works on the UTF-8 bytes of the strings; hostnames are matched
// case-insensitively (ASCII) and a single trailing dot is ignored.
// ---------------------------------------------------------------------------

/// The UTF-8 bytes of a string value.
pub open spec fn sbytes(s: Seq<char>) -> Seq<u8> {
    vstd::utf8::encode_utf8(s)
}

pub open spec fn lower_byte(b: u8) -> u8 {
    if 65 <= b <= 90 {
        (b + 32) as u8
    } else {
        b
    }
}

/// Hostname key: drop one trailing dot, lowercase the ASCII letters.
pub open spec fn normalize_host_bytes(s: Seq<u8>) -> Seq<u8> {
    let t = if s.len() > 0 && s[s.len() - 1] == 46u8 {
        s.take(s.len() - 1)
    } else {
        s
    };
    t.map_values(|b: u8| lower_byte(b))
}

/// Computes the lookup key for a hostname.
pub fn normalize_host(host: &str) -> (r: Vec<u8>)
    ensures
        r@ == normalize_host_bytes(host.spec_bytes()),
{
    let bs = host.as_bytes();
    let m: usize = if bs.len() > 0 && bs[bs.len() - 1] == 46u8 {
        bs.len() - 1
    } else {
        bs.len()
    };
    let ghost t = if bs@.len() > 0 && bs@[bs@.len() - 1] == 46u8 {
        bs@.take(bs@.len() - 1)
    } else {
        bs@
    };
    let mut out: Vec<u8> = Vec::new();
    let mut i: usize = 0;
    while i < m
        invariant
            0 <= i <= m,
            m <= bs@.len(),
            t.len() == m,
            forall|k: int| 0 <= k < m ==> t[k] == bs@[k],
            out@.len() == i,
            forall|k: int| 0 <= k < i ==> out@[k] == lower_byte(t[k]),
        decreases m - i,
    {
        let b = bs[i];
        if 65 <= b && b <= 90 {
            out.push(b + 32);
        } else {
            out.push(b);
        }
        i = i + 1;
    }
    proof {
        assert(out@ =~= t.map_values(|b: u8| lower_byte(b)));
    }
    out
}

/// Byte-wise prefix test.
pub fn bytes_is_prefix(p: &[u8], s: &[u8]) -> (r: bool)
    ensures
        r == p@.is_prefix_of(s@),
{
    if p.len() > s.len() {
        return false;
    }
    let mut i: usize = 0;
    while i < p.len()
        invariant
            0 <= i <= p@.len(),
            p@.len() <= s@.len(),
            forall|k: int| 0 <= k < i ==> p@[k] == s@[k],
        decreases p@.len() - i,
    {
        if p[i] != s[i] {
            proof {
                assert(p@[i as int] != s@.subrange(0, p@.len() as int)[i as int]);
            }
            return false;
        }
        i = i + 1;
    }
    proof {
        assert(p@ =~= s@.subrange(0, p@.len() as int));
    }
    true
}

/// One routing rule under a hostname.
pub struct HttpRoute {
    pub path_begin: String,
    pub app_id: String,
}

/// All rules for one hostname key, longest path prefix first.
pub struct HostEntry {
    pub key: Vec<u8>,
    pub routes: Vec<HttpRoute>,
}

/// Hostname, then longest matching path prefix; ties go to the rule
/// inserted first.
pub struct HttpRouteTable {
    pub hosts: Vec<HostEntry>,
}

/// Route paths weakly decrease in byte length.
pub open spec fn routes_sorted(rs: Seq<HttpRoute>) -> bool {
    forall|i: int, j: int|
        0 <= i < j < rs.len() ==> sbytes(#[trigger] rs[i].path_begin@).len() >= sbytes(
            #[trigger] rs[j].path_begin@,
        ).len()
}

/// No two routes share a path.
pub open spec fn routes_unique(rs: Seq<HttpRoute>) -> bool {
    forall|i: int, j: int|
        0 <= i < j < rs.len() ==> (#[trigger] rs[i].path_begin@) != (#[trigger] rs[j].path_begin@)
}

/// The first route whose path is exactly `q`, if any.
pub open spec fn route_app_from(rs: Seq<HttpRoute>, q: Seq<char>, i: int) -> Option<Seq<char>>
    decreases rs.len() - i,
{
    if i < 0 || i >= rs.len() {
        None
    } else if rs[i].path_begin@ == q {
        Some(rs[i].app_id@)
    } else {
        route_app_from(rs, q, i + 1)
    }
}

pub open spec fn route_app(rs: Seq<HttpRoute>, q: Seq<char>) -> Option<Seq<char>> {
    route_app_from(rs, q, 0)
}

impl HttpRouteTable {
    pub open spec fn wf(&self) -> bool {
        &&& forall|i: int, j: int|
            0 <= i < j < self.hosts@.len() ==> (#[trigger] self.hosts@[i].key@) != (
            #[trigger] self.hosts@[j].key@)
        &&& forall|h: int|
            0 <= h < self.hosts@.len() ==> routes_sorted(#[trigger] self.hosts@[h].routes@)
        &&& forall|h: int|
            0 <= h < self.hosts@.len() ==> routes_unique(#[trigger] self.hosts@[h].routes@)
    }

    pub open spec fn spec_has_host(&self, key: Seq<u8>) -> bool {
        exists|h: int| 0 <= h < self.hosts@.len() && (#[trigger] self.hosts@[h].key@) == key
    }

    /// The rules stored under a hostname key; empty when the host is
    /// unknown.
    pub open spec fn routes_of(&self, key: Seq<u8>) -> Seq<HttpRoute> {
        if self.spec_has_host(key) {
            let h = choose|h: int|
                0 <= h < self.hosts@.len() && (#[trigger] self.hosts@[h].key@) == key;
            self.hosts@[h].routes@
        } else {
            Seq::empty()
        }
    }

    pub fn new() -> (t: HttpRouteTable)
        ensures
            t.wf(),
            t.hosts@.len() == 0,
    {
        HttpRouteTable { hosts: Vec::new() }
    }
}

/// Does this rule's path prefix the request's path (byte-wise)?
pub open spec fn prefix_match(r: HttpRoute, path_bytes: Seq<u8>) -> bool {
    sbytes(r.path_begin@).is_prefix_of(path_bytes)
}

proof fn lemma_route_app_found(rs: Seq<HttpRoute>, q: Seq<char>, i: int, k: int)
    requires
        0 <= k <= i < rs.len(),
        rs[i].path_begin@ == q,
        forall|m: int| k <= m < i ==> rs[m].path_begin@ != q,
    ensures
        route_app_from(rs, q, k) == Some(rs[i].app_id@),
    decreases i - k,
{
    if k < i {
        lemma_route_app_found(rs, q, i, k + 1);
    }
}

proof fn lemma_route_app_none(rs: Seq<HttpRoute>, q: Seq<char>, k: int)
    requires
        0 <= k,
        forall|m: int| k <= m < rs.len() ==> rs[m].path_begin@ != q,
    ensures
        route_app_from(rs, q, k) is None,
    decreases rs.len() - k,
{
    if k < rs.len() {
        lemma_route_app_none(rs, q, k + 1);
    }
}

proof fn lemma_route_app_insert_shift(rs: Seq<HttpRoute>, pos: int, r2: HttpRoute, q: Seq<char>, k: int)
    requires
        0 <= pos <= rs.len(),
        pos + 1 <= k <= rs.len() + 1,
    ensures
        route_app_from(rs.insert(pos, r2), q, k) == route_app_from(rs, q, k - 1),
    decreases rs.len() + 1 - k,
{
    let new = rs.insert(pos, r2);
    if k < new.len() {
        lemma_route_app_insert_shift(rs, pos, r2, q, k + 1);
        assert(new[k] == rs[k - 1]);
    }
}

proof fn lemma_route_app_insert(rs: Seq<HttpRoute>, pos: int, r2: HttpRoute, q: Seq<char>, k: int)
    requires
        0 <= k <= pos <= rs.len(),
        q != r2.path_begin@,
    ensures
        route_app_from(rs.insert(pos, r2), q, k) == route_app_from(rs, q, k),
    decreases pos - k,
{
    let new = rs.insert(pos, r2);
    if k == pos {
        assert(new[pos] == r2);
        lemma_route_app_insert_shift(rs, pos, r2, q, pos + 1);
    } else {
        assert(new[k] == rs[k]);
        lemma_route_app_insert(rs, pos, r2, q, k + 1);
    }
}

proof fn lemma_route_app_update(rs: Seq<HttpRoute>, i: int, r2: HttpRoute, q: Seq<char>, k: int)
    requires
        0 <= k <= rs.len(),
        0 <= i < rs.len(),
        rs[i].path_begin@ == r2.path_begin@,
        q != r2.path_begin@,
    ensures
        route_app_from(rs.update(i, r2), q, k) == route_app_from(rs, q, k),
    decreases rs.len() - k,
{
    if k < rs.len() {
        lemma_route_app_update(rs, i, r2, q, k + 1);
    }
}

proof fn lemma_route_app_remove_shift(rs: Seq<HttpRoute>, i: int, q: Seq<char>, k: int)
    requires
        0 <= i < rs.len(),
        i <= k <= rs.len() - 1,
    ensures
        route_app_from(rs.remove(i), q, k) == route_app_from(rs, q, k + 1),
    decreases rs.len() - 1 - k,
{
    let new = rs.remove(i);
    if k < new.len() {
        lemma_route_app_remove_shift(rs, i, q, k + 1);
        assert(new[k] == rs[k + 1]);
    }
}

proof fn lemma_route_app_remove(rs: Seq<HttpRoute>, i: int, q: Seq<char>, k: int)
    requires
        0 <= k <= i < rs.len(),
        q != rs[i].path_begin@,
    ensures
        route_app_from(rs.remove(i), q, k) == route_app_from(rs, q, k),
    decreases i - k,
{
    let new = rs.remove(i);
    if k == i {
        lemma_route_app_remove_shift(rs, i, q, i);
    } else {
        assert(new[k] == rs[k]);
        lemma_route_app_remove(rs, i, q, k + 1);
    }
}

impl HttpRouteTable {
    /// With unique keys, any entry whose key matches is the one
    /// `routes_of` speaks about.
    proof fn lemma_routes_at(&self, h: int)
        requires
            self.wf(),
            0 <= h < self.hosts@.len(),
        ensures
            self.routes_of(self.hosts@[h].key@) == self.hosts@[h].routes@,
    {
        let key = self.hosts@[h].key@;
        assert(self.spec_has_host(key));
        let h2 = choose|h2: int|
            0 <= h2 < self.hosts@.len() && (#[trigger] self.hosts@[h2].key@) == key;
        if h2 != h {
            if h2 < h {
                assert(self.hosts@[h2].key@ != self.hosts@[h].key@);
            } else {
                assert(self.hosts@[h].key@ != self.hosts@[h2].key@);
            }
            assert(false);
        }
    }

    /// Looks an application up by exact hostname (normalized) and
    /// longest matching path prefix; among the rules for that host,
    /// no rule that matches the path has a longer prefix than the one
    /// chosen.
    pub fn lookup(&self, host: &str, path: &str) -> (r: Option<String>)
        requires
            self.wf(),
        ensures
            ({
                let key = normalize_host_bytes(host.spec_bytes());
                let pb = path.spec_bytes();
                let rs = self.routes_of(key);
                match r {
                    Some(app) => exists|i: int|
                        {
                            &&& 0 <= i < rs.len()
                            &&& prefix_match(#[trigger] rs[i], pb)
                            &&& app@ == rs[i].app_id@
                            &&& forall|j: int|
                                0 <= j < rs.len() && prefix_match(#[trigger] rs[j], pb) ==> sbytes(
                                    rs[j].path_begin@,
                                ).len() <= sbytes(rs[i].path_begin@).len()
                        },
                    None => forall|j: int|
                        0 <= j < rs.len() ==> !prefix_match(#[trigger] rs[j], pb),
                }
            }),
    {
        let key = normalize_host(host);
        let ghost pb = path.spec_bytes();
        let mut h: usize = 0;
        while h < self.hosts.len()
            invariant
                self.wf(),
                key@ == normalize_host_bytes(host.spec_bytes()),
                pb == path.spec_bytes(),
                0 <= h <= self.hosts@.len(),
                forall|m: int| 0 <= m < h ==> (#[trigger] self.hosts@[m].key@) != key@,
            decreases self.hosts@.len() - h,
        {
            if crate::messages::bytes_eq(&self.hosts[h].key, &key) {
                proof {
                    self.lemma_routes_at(h as int);
                }
                let ghost rsg = self.hosts@[h as int].routes@;
                let mut i: usize = 0;
                while i < self.hosts[h].routes.len()
                    invariant
                        self.wf(),
                        key@ == normalize_host_bytes(host.spec_bytes()),
                        pb == path.spec_bytes(),
                        0 <= h < self.hosts@.len(),
                        rsg == self.hosts@[h as int].routes@,
                        self.routes_of(key@) == rsg,
                        0 <= i <= rsg.len(),
                        forall|m: int| 0 <= m < i ==> !prefix_match(#[trigger] rsg[m], pb),
                    decreases rsg.len() - i,
                {
                    if bytes_is_prefix(
                        self.hosts[h].routes[i].path_begin.as_str().as_bytes(),
                        path.as_bytes(),
                    ) {
                        proof {
                            assert(routes_sorted(rsg));
                            assert(prefix_match(rsg[i as int], pb));
                            assert forall|j: int|
                                0 <= j < rsg.len() && prefix_match(
                                    #[trigger] rsg[j],
                                    pb,
                                ) implies sbytes(rsg[j].path_begin@).len() <= sbytes(
                                rsg[i as int].path_begin@,
                            ).len() by {
                                if j < i as int {
                                    assert(!prefix_match(rsg[j], pb));
                                }
                            }
                        }
                        return Some(self.hosts[h].routes[i].app_id.clone());
                    }
                    i = i + 1;
                }
                return None;
            }
            h = h + 1;
        }
        proof {
            assert(!self.spec_has_host(key@));
        }
        None
    }
}

proof fn lemma_frame_push(oldt: HttpRouteTable, newt: HttpRouteTable, entry: HostEntry)
    requires
        oldt.wf(),
        newt.wf(),
        newt.hosts@ == oldt.hosts@.push(entry),
    ensures
        forall|k: Seq<u8>| k != entry.key@ ==> #[trigger] newt.routes_of(k) == oldt.routes_of(k),
{
    assert forall|k: Seq<u8>| k != entry.key@ implies #[trigger] newt.routes_of(k)
        == oldt.routes_of(k) by {
        if newt.spec_has_host(k) {
            let h2 = choose|h2: int|
                0 <= h2 < newt.hosts@.len() && (#[trigger] newt.hosts@[h2].key@) == k;
            assert(h2 < oldt.hosts@.len());
            assert(oldt.hosts@[h2].key@ == k);
            assert(oldt.spec_has_host(k));
            newt.lemma_routes_at(h2);
            oldt.lemma_routes_at(h2);
        } else {
            if oldt.spec_has_host(k) {
                let h2 = choose|h2: int|
                    0 <= h2 < oldt.hosts@.len() && (#[trigger] oldt.hosts@[h2].key@) == k;
                assert(newt.hosts@[h2].key@ == k);
                assert(false);
            }
        }
    }
}

proof fn lemma_frame_update(oldt: HttpRouteTable, newt: HttpRouteTable, h: int, entry: HostEntry)
    requires
        oldt.wf(),
        newt.wf(),
        0 <= h < oldt.hosts@.len(),
        newt.hosts@ == oldt.hosts@.update(h, entry),
        entry.key@ == oldt.hosts@[h].key@,
    ensures
        forall|k: Seq<u8>| k != entry.key@ ==> #[trigger] newt.routes_of(k) == oldt.routes_of(k),
{
    assert forall|k: Seq<u8>| k != entry.key@ implies #[trigger] newt.routes_of(k)
        == oldt.routes_of(k) by {
        if newt.spec_has_host(k) {
            let h2 = choose|h2: int|
                0 <= h2 < newt.hosts@.len() && (#[trigger] newt.hosts@[h2].key@) == k;
            assert(h2 != h);
            assert(oldt.hosts@[h2].key@ == k);
            assert(oldt.spec_has_host(k));
            newt.lemma_routes_at(h2);
            oldt.lemma_routes_at(h2);
        } else {
            if oldt.spec_has_host(k) {
                let h2 = choose|h2: int|
                    0 <= h2 < oldt.hosts@.len() && (#[trigger] oldt.hosts@[h2].key@) == k;
                assert(h2 != h);
                assert(newt.hosts@[h2].key@ == k);
                assert(false);
            }
        }
    }
}

fn find_host(hosts: &Vec<HostEntry>, key: &Vec<u8>) -> (r: Option<usize>)
    ensures
        match r {
            Some(h) => h < hosts@.len() && hosts@[h as int].key@ == key@,
            None => forall|m: int| 0 <= m < hosts@.len() ==> (#[trigger] hosts@[m].key@) != key@,
        },
{
    let mut h: usize = 0;
    while h < hosts.len()
        invariant
            0 <= h <= hosts@.len(),
            forall|m: int| 0 <= m < h ==> (#[trigger] hosts@[m].key@) != key@,
        decreases hosts@.len() - h,
    {
        if crate::messages::bytes_eq(&hosts[h].key, key) {
            return Some(h);
        }
        h = h + 1;
    }
    None
}

fn find_route(routes: &Vec<HttpRoute>, path: &String) -> (r: Option<usize>)
    ensures
        match r {
            Some(i) => {
                &&& i < routes@.len()
                &&& routes@[i as int].path_begin@ == path@
                &&& forall|m: int| 0 <= m < i ==> (#[trigger] routes@[m].path_begin@) != path@
            },
            None => forall|m: int|
                0 <= m < routes@.len() ==> (#[trigger] routes@[m].path_begin@) != path@,
        },
{
    let mut i: usize = 0;
    while i < routes.len()
        invariant
            0 <= i <= routes@.len(),
            forall|m: int| 0 <= m < i ==> (#[trigger] routes@[m].path_begin@) != path@,
        decreases routes@.len() - i,
    {
        if routes[i].path_begin == *path {
            return Some(i);
        }
        i = i + 1;
    }
    None
}

/// First position whose path is strictly shorter (in bytes) than
/// `plen`; with a sorted list, everything from there on is shorter.
fn find_insert_pos(routes: &Vec<HttpRoute>, plen: usize) -> (pos: usize)
    requires
        routes_sorted(routes@),
    ensures
        pos <= routes@.len(),
        forall|m: int|
            0 <= m < pos ==> sbytes(#[trigger] routes@[m].path_begin@).len() >= plen as nat,
        forall|m: int|
            pos <= m < routes@.len() ==> sbytes(#[trigger] routes@[m].path_begin@).len() < plen
                as nat,
{
    let mut i: usize = 0;
    while i < routes.len()
        invariant
            routes_sorted(routes@),
            0 <= i <= routes@.len(),
            forall|m: int|
                0 <= m < i ==> sbytes(#[trigger] routes@[m].path_begin@).len() >= plen as nat,
        decreases routes@.len() - i,
    {
        if routes[i].path_begin.as_str().as_bytes().len() < plen {
            proof {
                assert forall|m: int|
                    i as int <= m < routes@.len() implies sbytes(
                    #[trigger] routes@[m].path_begin@,
                ).len() < plen as nat by {
                    if m > i as int {
                        assert(sbytes(routes@[i as int].path_begin@).len() >= sbytes(
                            routes@[m].path_begin@,
                        ).len());
                    }
                }
            }
            return i;
        }
        i = i + 1;
    }
    routes.len()
}

impl HttpRouteTable {
    /// Adds (or rebinds) the rule `(hostname, path_begin) -> app_id`.
    /// Every other binding, on this host or any other, is untouched.
    #[verifier::rlimit(60)]
    pub fn add_front(&mut self, front: &HttpFront)
        requires
            old(self).wf(),
        ensures
            final(self).wf(),
            ({
                let key = normalize_host_bytes(sbytes(front.hostname@));
                &&& route_app(final(self).routes_of(key), front.path_begin@) == Some(
                    front.app_id@,
                )
                &&& forall|q: Seq<char>|
                    q != front.path_begin@ ==> #[trigger] route_app(
                        final(self).routes_of(key),
                        q,
                    ) == route_app(old(self).routes_of(key), q)
                &&& forall|k: Seq<u8>|
                    k != key ==> #[trigger] final(self).routes_of(k) == old(self).routes_of(k)
            }),
    {
        let ghost oldt = *old(self);
        let ghost kk = normalize_host_bytes(sbytes(front.hostname@));
        let ghost pp = front.path_begin@;
        let key = normalize_host(front.hostname.as_str());
        let new_route = HttpRoute {
            path_begin: front.path_begin.clone(),
            app_id: front.app_id.clone(),
        };
        match find_host(&self.hosts, &key) {
            None => {
                let mut routes: Vec<HttpRoute> = Vec::new();
                routes.push(new_route);
                self.hosts.push(HostEntry { key, routes });
                proof {
                    let newt = *self;
                    let last = newt.hosts@.len() - 1;
                    assert forall|i: int, j: int|
                        0 <= i < j < newt.hosts@.len() implies (#[trigger] newt.hosts@[i].key@)
                        != (#[trigger] newt.hosts@[j].key@) by {
                        if j < last {
                            assert(oldt.hosts@[i].key@ != oldt.hosts@[j].key@);
                        } else {
                            assert(oldt.hosts@[i].key@ != kk);
                        }
                    }
                    assert forall|h: int|
                        0 <= h < newt.hosts@.len() implies routes_sorted(
                        #[trigger] newt.hosts@[h].routes@,
                    ) && routes_unique(newt.hosts@[h].routes@) by {
                        if h < last {
                            assert(routes_sorted(oldt.hosts@[h].routes@));
                            assert(routes_unique(oldt.hosts@[h].routes@));
                            assert(newt.hosts@[h] == oldt.hosts@[h]);
                        }
                    }
                    assert(newt.wf());
                    newt.lemma_routes_at(last);
                    assert(newt.hosts@[last].key@ == kk);
                    let rs = newt.routes_of(kk);
                    assert(rs.len() == 1 && rs[0] == new_route);
                    assert(route_app(rs, pp) == Some(front.app_id@));
                    assert(!oldt.spec_has_host(kk));
                    assert forall|q: Seq<char>| q != pp implies #[trigger] route_app(rs, q)
                        == route_app(oldt.routes_of(kk), q) by {
                        lemma_route_app_none(rs, q, 0);
                        lemma_route_app_none(oldt.routes_of(kk), q, 0);
                    }
                    lemma_frame_push(oldt, newt, newt.hosts@[last]);
                }
            },
            Some(h) => {
                proof {
                    oldt.lemma_routes_at(h as int);
                }
                let mut entry = self.hosts.remove(h);
                let ghost old_routes = entry.routes@;
                match find_route(&entry.routes, &front.path_begin) {
                    Some(i) => {
                        let _ = entry.routes.remove(i);
                        entry.routes.insert(i, new_route);
                        proof {
                            let rs2 = old_routes.update(i as int, new_route);
                            assert(entry.routes@ =~= rs2);
                            assert(routes_sorted(old_routes) && routes_unique(old_routes));
                            assert(sbytes(rs2[i as int].path_begin@) == sbytes(
                                old_routes[i as int].path_begin@,
                            ));
                            assert forall|a: int, b: int|
                                0 <= a < b < rs2.len() implies sbytes(
                                #[trigger] rs2[a].path_begin@,
                            ).len() >= sbytes(#[trigger] rs2[b].path_begin@).len() by {
                                assert(sbytes(old_routes[a].path_begin@).len() >= sbytes(
                                    old_routes[b].path_begin@,
                                ).len());
                            }
                            assert forall|a: int, b: int|
                                0 <= a < b < rs2.len() implies (#[trigger] rs2[a].path_begin@)
                                != (#[trigger] rs2[b].path_begin@) by {
                                assert(old_routes[a].path_begin@ != old_routes[b].path_begin@);
                            }
                            assert(routes_sorted(entry.routes@) && routes_unique(entry.routes@));
                            lemma_route_app_found(entry.routes@, pp, i as int, 0);
                            assert forall|q: Seq<char>| q != pp implies #[trigger] route_app(
                                entry.routes@,
                                q,
                            ) == route_app(old_routes, q) by {
                                lemma_route_app_update(old_routes, i as int, new_route, q, 0);
                            }
                        }
                    },
                    None => {
                        let plen = front.path_begin.as_str().as_bytes().len();
                        proof {
                            assert(routes_sorted(old_routes) && routes_unique(old_routes));
                        }
                        let pos = find_insert_pos(&entry.routes, plen);
                        entry.routes.insert(pos, new_route);
                        proof {
                            let rs2 = old_routes.insert(pos as int, new_route);
                            assert(entry.routes@ == rs2);
                            assert(rs2[pos as int] == new_route);
                            assert(sbytes(new_route.path_begin@).len() == plen as nat);
                            assert forall|a: int, b: int|
                                0 <= a < b < rs2.len() implies sbytes(
                                #[trigger] rs2[a].path_begin@,
                            ).len() >= sbytes(#[trigger] rs2[b].path_begin@).len() by {
                                if a < pos as int && b < pos as int {
                                    assert(rs2[a] == old_routes[a] && rs2[b] == old_routes[b]);
                                } else if a < pos as int && b == pos as int {
                                    assert(rs2[a] == old_routes[a]);
                                } else if a < pos as int && b > pos as int {
                                    assert(rs2[a] == old_routes[a] && rs2[b] == old_routes[b - 1]);
                                } else if a == pos as int && b > pos as int {
                                    assert(rs2[b] == old_routes[b - 1]);
                                } else {
                                    assert(rs2[a] == old_routes[a - 1] && rs2[b] == old_routes[b
                                        - 1]);
                                }
                            }
                            assert forall|a: int, b: int|
                                0 <= a < b < rs2.len() implies (#[trigger] rs2[a].path_begin@)
                                != (#[trigger] rs2[b].path_begin@) by {
                                if a < pos as int && b < pos as int {
                                    assert(rs2[a] == old_routes[a] && rs2[b] == old_routes[b]);
                                } else if a < pos as int && b == pos as int {
                                    assert(rs2[a] == old_routes[a]);
                                } else if a < pos as int && b > pos as int {
                                    assert(rs2[a] == old_routes[a] && rs2[b] == old_routes[b - 1]);
                                } else if a == pos as int && b > pos as int {
                                    assert(rs2[b] == old_routes[b - 1]);
                                } else {
                                    assert(rs2[a] == old_routes[a - 1] && rs2[b] == old_routes[b
                                        - 1]);
                                }
                            }
                            assert(routes_sorted(entry.routes@) && routes_unique(entry.routes@));
                            assert forall|m: int| 0 <= m < pos as int implies (
                            #[trigger] rs2[m].path_begin@) != pp by {
                                assert(rs2[m] == old_routes[m]);
                            }
                            lemma_route_app_found(entry.routes@, pp, pos as int, 0);
                            assert forall|q: Seq<char>| q != pp implies #[trigger] route_app(
                                entry.routes@,
                                q,
                            ) == route_app(old_routes, q) by {
                                lemma_route_app_insert(old_routes, pos as int, new_route, q, 0);
                            }
                        }
                    },
                }
                let ghost entry_g = entry;
                self.hosts.insert(h, entry);
                proof {
                    let newt = *self;
                    assert(newt.hosts@ =~= oldt.hosts@.update(h as int, entry_g));
                    let new_routes = entry_g.routes@;
                    assert forall|i: int, j: int|
                        0 <= i < j < newt.hosts@.len() implies (#[trigger] newt.hosts@[i].key@)
                        != (#[trigger] newt.hosts@[j].key@) by {
                        assert(oldt.hosts@[i].key@ != oldt.hosts@[j].key@);
                        assert(newt.hosts@[i].key@ == oldt.hosts@[i].key@);
                        assert(newt.hosts@[j].key@ == oldt.hosts@[j].key@);
                    }
                    assert forall|hh: int|
                        0 <= hh < newt.hosts@.len() implies routes_sorted(
                        #[trigger] newt.hosts@[hh].routes@,
                    ) && routes_unique(newt.hosts@[hh].routes@) by {
                        if hh != h as int {
                            assert(newt.hosts@[hh] == oldt.hosts@[hh]);
                            assert(routes_sorted(oldt.hosts@[hh].routes@));
                            assert(routes_unique(oldt.hosts@[hh].routes@));
                        } else {
                            assert(newt.hosts@[hh].routes@ == new_routes);
                        }
                    }
                    assert(newt.wf());
                    newt.lemma_routes_at(h as int);
                    assert(newt.routes_of(kk) == new_routes);
                    assert(oldt.routes_of(kk) == old_routes);
                    lemma_frame_update(oldt, newt, h as int, entry_g);
                }
            },
        }
    }
}

impl HttpRouteTable {
    /// Removes the rule `(hostname, path_begin)`; every other binding
    /// stays.
    #[verifier::rlimit(60)]
    pub fn remove_front(&mut self, front: &HttpFront)
        requires
            old(self).wf(),
        ensures
            final(self).wf(),
            ({
                let key = normalize_host_bytes(sbytes(front.hostname@));
                &&& route_app(final(self).routes_of(key), front.path_begin@) is None
                &&& forall|q: Seq<char>|
                    q != front.path_begin@ ==> #[trigger] route_app(
                        final(self).routes_of(key),
                        q,
                    ) == route_app(old(self).routes_of(key), q)
                &&& forall|k: Seq<u8>|
                    k != key ==> #[trigger] final(self).routes_of(k) == old(self).routes_of(k)
            }),
    {
        let ghost oldt = *old(self);
        let ghost kk = normalize_host_bytes(sbytes(front.hostname@));
        let ghost pp = front.path_begin@;
        let key = normalize_host(front.hostname.as_str());
        match find_host(&self.hosts, &key) {
            None => {
                proof {
                    assert(!oldt.spec_has_host(kk));
                    lemma_route_app_none(oldt.routes_of(kk), pp, 0);
                }
            },
            Some(h) => {
                proof {
                    oldt.lemma_routes_at(h as int);
                }
                match find_route(&self.hosts[h].routes, &front.path_begin) {
                    None => {
                        proof {
                            lemma_route_app_none(oldt.routes_of(kk), pp, 0);
                        }
                    },
                    Some(i) => {
                        let mut entry = self.hosts.remove(h);
                        let ghost old_routes = entry.routes@;
                        let _ = entry.routes.remove(i);
                        proof {
                            let rs2 = old_routes.remove(i as int);
                            assert(entry.routes@ == rs2);
                            assert(routes_sorted(old_routes) && routes_unique(old_routes));
                            assert forall|a: int, b: int|
                                0 <= a < b < rs2.len() implies sbytes(
                                #[trigger] rs2[a].path_begin@,
                            ).len() >= sbytes(#[trigger] rs2[b].path_begin@).len() && (
                            rs2[a].path_begin@) != (rs2[b].path_begin@) by {
                                if b < i as int {
                                    assert(rs2[a] == old_routes[a] && rs2[b] == old_routes[b]);
                                } else if a < i as int {
                                    assert(rs2[a] == old_routes[a] && rs2[b] == old_routes[b + 1]);
                                } else {
                                    assert(rs2[a] == old_routes[a + 1] && rs2[b] == old_routes[b
                                        + 1]);
                                }
                            }
                            assert forall|m: int| 0 <= m < rs2.len() implies (
                            #[trigger] rs2[m].path_begin@) != pp by {
                                if m < i as int {
                                    assert(rs2[m] == old_routes[m]);
                                } else {
                                    assert(rs2[m] == old_routes[m + 1]);
                                    assert(old_routes[i as int].path_begin@ != old_routes[m
                                        + 1].path_begin@);
                                }
                            }
                            lemma_route_app_none(rs2, pp, 0);
                        }
                        let ghost entry_g = entry;
                        self.hosts.insert(h, entry);
                        proof {
                            let newt = *self;
                            assert(newt.hosts@ =~= oldt.hosts@.update(h as int, entry_g));
                            let new_routes = entry_g.routes@;
                            assert forall|a: int, b: int|
                                0 <= a < b < newt.hosts@.len() implies (
                            #[trigger] newt.hosts@[a].key@) != (#[trigger] newt.hosts@[b].key@) by {
                                assert(oldt.hosts@[a].key@ != oldt.hosts@[b].key@);
                                assert(newt.hosts@[a].key@ == oldt.hosts@[a].key@);
                                assert(newt.hosts@[b].key@ == oldt.hosts@[b].key@);
                            }
                            assert forall|hh: int|
                                0 <= hh < newt.hosts@.len() implies routes_sorted(
                                #[trigger] newt.hosts@[hh].routes@,
                            ) && routes_unique(newt.hosts@[hh].routes@) by {
                                if hh != h as int {
                                    assert(newt.hosts@[hh] == oldt.hosts@[hh]);
                                    assert(routes_sorted(oldt.hosts@[hh].routes@));
                                    assert(routes_unique(oldt.hosts@[hh].routes@));
                                }
                            }
                            assert(newt.wf());
                            newt.lemma_routes_at(h as int);
                            assert forall|q: Seq<char>| q != pp implies #[trigger] route_app(
                                new_routes,
                                q,
                            ) == route_app(old_routes, q) by {
                                lemma_route_app_remove(old_routes, i as int, q, 0);
                            }
                            lemma_frame_update(oldt, newt, h as int, entry_g);
                        }
                    },
                }
            },
        }
    }
}

// ---------------------------------------------------------------------------
// Byte-keyed entry lists for the TLS side: the SNI map (hostname key
// to certificate fingerprint) and the certificate store (fingerprint
// to certificate).  First match wins and keys are kept unique.
// ---------------------------------------------------------------------------

pub struct KvEntry<V> {
    pub key: Vec<u8>,
    pub value: V,
}

pub open spec fn kv_get_from<V>(es: Seq<KvEntry<V>>, key: Seq<u8>, i: int) -> Option<V>
    decreases es.len() - i,
{
    if i < 0 || i >= es.len() {
        None
    } else if es[i].key@ == key {
        Some(es[i].value)
    } else {
        kv_get_from(es, key, i + 1)
    }
}

/// The value stored under `key`, if any.
pub open spec fn kv_get<V>(es: Seq<KvEntry<V>>, key: Seq<u8>) -> Option<V> {
    kv_get_from(es, key, 0)
}

pub open spec fn kv_unique<V>(es: Seq<KvEntry<V>>) -> bool {
    forall|i: int, j: int|
        0 <= i < j < es.len() ==> (#[trigger] es[i].key@) != (#[trigger] es[j].key@)
}

proof fn lemma_kv_get_found<V>(es: Seq<KvEntry<V>>, key: Seq<u8>, i: int, k: int)
    requires
        0 <= k <= i < es.len(),
        es[i].key@ == key,
        forall|m: int| k <= m < i ==> es[m].key@ != key,
    ensures
        kv_get_from(es, key, k) == Some(es[i].value),
    decreases i - k,
{
    if k < i {
        lemma_kv_get_found(es, key, i, k + 1);
    }
}

proof fn lemma_kv_get_none<V>(es: Seq<KvEntry<V>>, key: Seq<u8>, k: int)
    requires
        0 <= k,
        forall|m: int| k <= m < es.len() ==> es[m].key@ != key,
    ensures
        kv_get_from(es, key, k) is None,
    decreases es.len() - k,
{
    if k < es.len() {
        lemma_kv_get_none(es, key, k + 1);
    }
}

proof fn lemma_kv_get_push<V>(es: Seq<KvEntry<V>>, e: KvEntry<V>, q: Seq<u8>, k: int)
    requires
        0 <= k <= es.len(),
        q != e.key@,
    ensures
        kv_get_from(es.push(e), q, k) == kv_get_from(es, q, k),
    decreases es.len() - k,
{
    let new = es.push(e);
    if k < es.len() {
        assert(new[k] == es[k]);
        lemma_kv_get_push(es, e, q, k + 1);
    } else {
        assert(new[k] == e);
        assert(kv_get_from(new, q, k + 1) is None);
    }
}

proof fn lemma_kv_get_update<V>(es: Seq<KvEntry<V>>, i: int, e: KvEntry<V>, q: Seq<u8>, k: int)
    requires
        0 <= k <= es.len(),
        0 <= i < es.len(),
        es[i].key@ == e.key@,
        q != e.key@,
    ensures
        kv_get_from(es.update(i, e), q, k) == kv_get_from(es, q, k),
    decreases es.len() - k,
{
    if k < es.len() {
        lemma_kv_get_update(es, i, e, q, k + 1);
    }
}

proof fn lemma_kv_get_remove_shift<V>(es: Seq<KvEntry<V>>, i: int, q: Seq<u8>, k: int)
    requires
        0 <= i < es.len(),
        i <= k <= es.len() - 1,
    ensures
        kv_get_from(es.remove(i), q, k) == kv_get_from(es, q, k + 1),
    decreases es.len() - 1 - k,
{
    let new = es.remove(i);
    if k < new.len() {
        lemma_kv_get_remove_shift(es, i, q, k + 1);
        assert(new[k] == es[k + 1]);
    }
}

proof fn lemma_kv_get_remove<V>(es: Seq<KvEntry<V>>, i: int, q: Seq<u8>, k: int)
    requires
        0 <= k <= i < es.len(),
        q != es[i].key@,
    ensures
        kv_get_from(es.remove(i), q, k) == kv_get_from(es, q, k),
    decreases i - k,
{
    let new = es.remove(i);
    if k == i {
        lemma_kv_get_remove_shift(es, i, q, i);
    } else {
        assert(new[k] == es[k]);
        lemma_kv_get_remove(es, i, q, k + 1);
    }
}

fn kv_find<V>(es: &Vec<KvEntry<V>>, key: &Vec<u8>) -> (r: Option<usize>)
    ensures
        match r {
            Some(i) => {
                &&& i < es@.len()
                &&& es@[i as int].key@ == key@
                &&& forall|m: int| 0 <= m < i ==> (#[trigger] es@[m].key@) != key@
            },
            None => forall|m: int| 0 <= m < es@.len() ==> (#[trigger] es@[m].key@) != key@,
        },
{
    let mut i: usize = 0;
    while i < es.len()
        invariant
            0 <= i <= es@.len(),
            forall|m: int| 0 <= m < i ==> (#[trigger] es@[m].key@) != key@,
        decreases es@.len() - i,
    {
        if crate::messages::bytes_eq(&es[i].key, key) {
            return Some(i);
        }
        i = i + 1;
    }
    None
}

/// Binds `key` to `value`, replacing any earlier binding; all other
/// keys keep their values.
fn kv_set<V>(es: &mut Vec<KvEntry<V>>, key: Vec<u8>, value: V)
    requires
        kv_unique(old(es)@),
    ensures
        kv_unique(final(es)@),
        kv_get(final(es)@, key@) == Some(value),
        forall|q: Seq<u8>| q != key@ ==> #[trigger] kv_get(final(es)@, q) == kv_get(old(es)@, q),
{
    let ghost old_es = es@;
    let ghost kk = key@;
    let e = KvEntry { key, value };
    match kv_find(es, &e.key) {
        Some(i) => {
            let _ = es.remove(i);
            es.insert(i, e);
            proof {
                let new = es@;
                assert(new =~= old_es.update(i as int, KvEntry { key: e.key, value }));
                let eg = new[i as int];
                assert forall|a: int, b: int|
                    0 <= a < b < new.len() implies (#[trigger] new[a].key@) != (
                #[trigger] new[b].key@) by {
                    assert(old_es[a].key@ != old_es[b].key@);
                }
                lemma_kv_get_found(new, kk, i as int, 0);
                assert forall|q: Seq<u8>| q != kk implies #[trigger] kv_get(new, q) == kv_get(
                    old_es,
                    q,
                ) by {
                    lemma_kv_get_update(old_es, i as int, eg, q, 0);
                }
            }
        },
        None => {
            es.push(e);
            proof {
                let new = es@;
                let last = new.len() - 1;
                assert forall|a: int, b: int|
                    0 <= a < b < new.len() implies (#[trigger] new[a].key@) != (
                #[trigger] new[b].key@) by {
                    if b < last {
                        assert(old_es[a].key@ != old_es[b].key@);
                    } else {
                        assert(old_es[a].key@ != kk);
                    }
                }
                lemma_kv_get_found(new, kk, last, 0);
                assert forall|q: Seq<u8>| q != kk implies #[trigger] kv_get(new, q) == kv_get(
                    old_es,
                    q,
                ) by {
                    lemma_kv_get_push(old_es, new[last], q, 0);
                }
            }
        },
    }
}

/// Drops the binding for `key`, if any; all other keys keep theirs.
fn kv_unset<V>(es: &mut Vec<KvEntry<V>>, key: &Vec<u8>)
    requires
        kv_unique(old(es)@),
    ensures
        kv_unique(final(es)@),
        kv_get(final(es)@, key@) is None,
        forall|q: Seq<u8>| q != key@ ==> #[trigger] kv_get(final(es)@, q) == kv_get(old(es)@, q),
{
    let ghost old_es = es@;
    let ghost kk = key@;
    match kv_find(es, key) {
        None => {
            proof {
                lemma_kv_get_none(old_es, kk, 0);
            }
        },
        Some(i) => {
            let _ = es.remove(i);
            proof {
                let new = es@;
                assert(new == old_es.remove(i as int));
                assert forall|a: int, b: int|
                    0 <= a < b < new.len() implies (#[trigger] new[a].key@) != (
                #[trigger] new[b].key@) by {
                    if b < i as int {
                        assert(new[a] == old_es[a] && new[b] == old_es[b]);
                    } else if a < i as int {
                        assert(new[a] == old_es[a] && new[b] == old_es[b + 1]);
                    } else {
                        assert(new[a] == old_es[a + 1] && new[b] == old_es[b + 1]);
                    }
                }
                assert forall|m: int| 0 <= m < new.len() implies (#[trigger] new[m].key@) != kk by {
                    if m < i as int {
                        assert(new[m] == old_es[m]);
                    } else {
                        assert(new[m] == old_es[m + 1]);
                        assert(old_es[i as int].key@ != old_es[m + 1].key@);
                    }
                }
                lemma_kv_get_none(new, kk, 0);
                assert forall|q: Seq<u8>| q != kk implies #[trigger] kv_get(new, q) == kv_get(
                    old_es,
                    q,
                ) by {
                    lemma_kv_get_remove(old_es, i as int, q, 0);
                }
            }
        },
    }
}

// ---------------------------------------------------------------------------
// The TLS routing tables: certificates by fingerprint, the SNI map,
// and a path table of the same shape as the HTTP one.
// ---------------------------------------------------------------------------

use crate::messages::{CertificateAndKey, TlsFront};

/// SNI certificate selection and TLS front routing.
pub struct TlsRouteTable {
    pub certificates: Vec<KvEntry<CertificateAndKey>>,
    pub sni: Vec<KvEntry<Vec<u8>>>,
    pub paths: HttpRouteTable,
}

impl TlsRouteTable {
    pub open spec fn wf(&self) -> bool {
        &&& kv_unique(self.certificates@)
        &&& kv_unique(self.sni@)
        &&& self.paths.wf()
    }

    /// The certificate stored under a fingerprint.
    pub open spec fn spec_certificate(&self, fp: Seq<u8>) -> Option<CertificateAndKey> {
        kv_get(self.certificates@, fp)
    }

    /// The fingerprint the SNI map selects for a hostname key.
    pub open spec fn spec_sni(&self, key: Seq<u8>) -> Option<Vec<u8>> {
        kv_get(self.sni@, key)
    }

    pub fn new() -> (t: TlsRouteTable)
        ensures
            t.wf(),
            t.certificates@.len() == 0,
            t.sni@.len() == 0,
            t.paths.hosts@.len() == 0,
    {
        TlsRouteTable { certificates: Vec::new(), sni: Vec::new(), paths: HttpRouteTable::new() }
    }

    /// Stores a certificate under its fingerprint, replacing an equal
    /// fingerprint's record.
    pub fn add_certificate(&mut self, fingerprint: Vec<u8>, certificate: CertificateAndKey)
        requires
            old(self).wf(),
        ensures
            final(self).wf(),
            final(self).spec_certificate(fingerprint@) == Some(certificate),
            forall|q: Seq<u8>|
                q != fingerprint@ ==> #[trigger] final(self).spec_certificate(q) == old(
                    self,
                ).spec_certificate(q),
            final(self).sni == old(self).sni,
            final(self).paths == old(self).paths,
    {
        kv_set(&mut self.certificates, fingerprint, certificate);
    }

    /// Drops the certificate with this fingerprint.
    pub fn remove_certificate(&mut self, fingerprint: &Vec<u8>)
        requires
            old(self).wf(),
        ensures
            final(self).wf(),
            final(self).spec_certificate(fingerprint@) is None,
            forall|q: Seq<u8>|
                q != fingerprint@ ==> #[trigger] final(self).spec_certificate(q) == old(
                    self,
                ).spec_certificate(q),
            final(self).sni == old(self).sni,
            final(self).paths == old(self).paths,
    {
        kv_unset(&mut self.certificates, fingerprint);
    }

    /// Looks up the certificate the SNI map selects for `host`.
    pub fn select_certificate(&self, host: &str) -> (r: Option<&CertificateAndKey>)
        requires
            self.wf(),
        ensures
            ({
                let key = normalize_host_bytes(host.spec_bytes());
                match r {
                    Some(c) => exists|fp: Vec<u8>|
                        self.spec_sni(key) == Some(fp) && #[trigger] self.spec_certificate(fp@)
                            == Some(*c),
                    None => self.spec_sni(key) is None || (self.spec_sni(key) matches Some(fp)
                        && self.spec_certificate(fp@) is None),
                }
            }),
    {
        let key = normalize_host(host);
        match kv_find(&self.sni, &key) {
            Some(i) => {
                proof {
                    lemma_kv_get_found(self.sni@, key@, i as int, 0);
                }
                let fp = &self.sni[i].value;
                match kv_find(&self.certificates, fp) {
                    Some(j) => {
                        proof {
                            lemma_kv_get_found(self.certificates@, fp@, j as int, 0);
                        }
                        Some(&self.certificates[j].value)
                    },
                    None => {
                        proof {
                            lemma_kv_get_none(self.certificates@, fp@, 0);
                        }
                        None
                    },
                }
            },
            None => {
                proof {
                    lemma_kv_get_none(self.sni@, key@, 0);
                }
                None
            },
        }
    }

    /// Adds a TLS front.  A front naming an unknown certificate
    /// fingerprint is refused untouched; otherwise the SNI map binds
    /// the hostname to that certificate and the path table gains the
    /// route.
    pub fn add_front(&mut self, front: &TlsFront) -> (r: bool)
        requires
            old(self).wf(),
        ensures
            final(self).wf(),
            r == (old(self).spec_certificate(front.fingerprint@) is Some),
            !r ==> *final(self) == *old(self),
            r ==> {
                let key = normalize_host_bytes(sbytes(front.hostname@));
                &&& final(self).spec_sni(key) matches Some(fp) && fp@ == front.fingerprint@
                &&& forall|q: Seq<u8>|
                    q != key ==> #[trigger] final(self).spec_sni(q) == old(self).spec_sni(q)
                &&& route_app(final(self).paths.routes_of(key), front.path_begin@) == Some(
                    front.app_id@,
                )
                &&& forall|q: Seq<char>|
                    q != front.path_begin@ ==> #[trigger] route_app(
                        final(self).paths.routes_of(key),
                        q,
                    ) == route_app(old(self).paths.routes_of(key), q)
                &&& forall|k: Seq<u8>|
                    k != key ==> #[trigger] final(self).paths.routes_of(k) == old(
                        self,
                    ).paths.routes_of(k)
                &&& final(self).certificates == old(self).certificates
            },
    {
        match kv_find(&self.certificates, &front.fingerprint) {
            None => {
                proof {
                    lemma_kv_get_none(self.certificates@, front.fingerprint@, 0);
                }
                false
            },
            Some(j) => {
                proof {
                    lemma_kv_get_found(self.certificates@, front.fingerprint@, j as int, 0);
                }
                let key = normalize_host(front.hostname.as_str());
                kv_set(&mut self.sni, key, front.fingerprint.clone());
                let http_front = crate::messages::HttpFront {
                    app_id: front.app_id.clone(),
                    hostname: front.hostname.clone(),
                    path_begin: front.path_begin.clone(),
                };
                self.paths.add_front(&http_front);
                true
            },
        }
    }

    /// Removes a TLS front's path route; the SNI binding and the
    /// certificate store stay.
    pub fn remove_front(&mut self, front: &TlsFront)
        requires
            old(self).wf(),
        ensures
            final(self).wf(),
            ({
                let key = normalize_host_bytes(sbytes(front.hostname@));
                &&& route_app(final(self).paths.routes_of(key), front.path_begin@) is None
                &&& forall|q: Seq<char>|
                    q != front.path_begin@ ==> #[trigger] route_app(
                        final(self).paths.routes_of(key),
                        q,
                    ) == route_app(old(self).paths.routes_of(key), q)
                &&& forall|k: Seq<u8>|
                    k != key ==> #[trigger] final(self).paths.routes_of(k) == old(
                        self,
                    ).paths.routes_of(k)
                &&& final(self).sni == old(self).sni
                &&& final(self).certificates == old(self).certificates
            }),
    {
        let http_front = crate::messages::HttpFront {
            app_id: front.app_id.clone(),
            hostname: front.hostname.clone(),
            path_begin: front.path_begin.clone(),
        };
        self.paths.remove_front(&http_front);
    }
}

} // verus!
