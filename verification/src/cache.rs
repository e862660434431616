//! The services found so far, one per port, and the bookkeeping of an
//! incremental scan: which ports are new, which changed owner, which went
//! away, and what the cache holds once their services are identified.
use vstd::prelude::*;
use crate::models::{
    OpenPort, OpenPortView, ServiceInfo, ServiceInfoView, open_port_views, service_views,
    copy_opt_string, opt_view,
};
use crate::scanner::has_port;
use std::collections::BTreeMap;
use vstd::std_specs::btree::{spec_btree_map_iter, increasing_seq};
use vstd::std_specs::iter::IteratorSpec;
use vstd::std_specs::cmp::OrdSpec;

verus! {

/// The services found so far, keyed by port.
pub struct ServiceCache {
    services: BTreeMap<u16, ServiceInfo>,
}

impl View for ServiceCache {
    type V = Map<u16, ServiceInfoView>;

    closed spec fn view(&self) -> Map<u16, ServiceInfoView> {
        self.services@.map_values(|s: ServiceInfo| s@)
    }
}


/// `s` lists the services of `m`, one per port, in increasing port order.
pub open spec fn port_ordered_listing(m: Map<u16, ServiceInfoView>, s: Seq<ServiceInfoView>) -> bool {
    &&& forall|i: int, j: int| 0 <= i < j < s.len() ==> s[i].port < s[j].port
    &&& forall|i: int|
        0 <= i < s.len() ==> m.contains_key((#[trigger] s[i]).port) && m[s[i].port] == s[i]
    &&& forall|k: u16| m.contains_key(k) ==> exists|i: int| 0 <= i < s.len() && (#[trigger] s[i]).port == k
}

/// A map has one listing in port order: the order of the services that
/// `services_by_port` returns is determined by the cache's contents.
pub proof fn lemma_port_ordered_listing_unique(
    m: Map<u16, ServiceInfoView>,
    s1: Seq<ServiceInfoView>,
    s2: Seq<ServiceInfoView>,
)
    requires
        port_ordered_listing(m, s1),
        port_ordered_listing(m, s2),
    ensures
        s1 == s2,
    decreases s1.len(),
{
    if s1.len() == 0 {
        if s2.len() > 0 {
            assert(m.contains_key(s2[0].port));
        }
        assert(s1 =~= s2);
    } else {
        assert(m.contains_key(s1[0].port));
        assert(s2.len() > 0);
        let a = s1.last();
        let b = s2.last();
        let ja = choose|j: int| 0 <= j < s2.len() && (#[trigger] s2[j]).port == a.port;
        let jb = choose|j: int| 0 <= j < s1.len() && (#[trigger] s1[j]).port == b.port;
        assert(a.port <= b.port) by {
            if ja < s2.len() - 1 {
                assert(s2[ja].port < s2[s2.len() - 1].port);
            }
        }
        assert(b.port <= a.port) by {
            if jb < s1.len() - 1 {
                assert(s1[jb].port < s1[s1.len() - 1].port);
            }
        }
        assert(a == b);
        let p = a.port;
        let m1 = m.remove(p);
        let t1 = s1.drop_last();
        let t2 = s2.drop_last();
        assert forall|i: int| 0 <= i < t1.len() implies t1[i].port < p by {
            assert(s1[i].port < s1[s1.len() - 1].port);
        }
        assert forall|i: int| 0 <= i < t2.len() implies t2[i].port < p by {
            assert(s2[i].port < s2[s2.len() - 1].port);
        }
        assert(port_ordered_listing(m1, t1)) by {
            assert forall|k: u16| m1.contains_key(k) implies exists|i: int|
                0 <= i < t1.len() && (#[trigger] t1[i]).port == k by {
                let i = choose|i: int| 0 <= i < s1.len() && (#[trigger] s1[i]).port == k;
                assert(i != s1.len() - 1);
                assert(t1[i] == s1[i]);
            }
            assert forall|i: int| 0 <= i < t1.len() implies m1.contains_key((#[trigger] t1[i]).port)
                && m1[t1[i].port] == t1[i] by {
                assert(t1[i] == s1[i]);
                assert(t1[i].port < p);
            }
        }
        assert(port_ordered_listing(m1, t2)) by {
            assert forall|k: u16| m1.contains_key(k) implies exists|i: int|
                0 <= i < t2.len() && (#[trigger] t2[i]).port == k by {
                let i = choose|i: int| 0 <= i < s2.len() && (#[trigger] s2[i]).port == k;
                assert(i != s2.len() - 1);
                assert(t2[i] == s2[i]);
            }
            assert forall|i: int| 0 <= i < t2.len() implies m1.contains_key((#[trigger] t2[i]).port)
                && m1[t2[i].port] == t2[i] by {
                assert(t2[i] == s2[i]);
                assert(t2[i].port < p);
            }
        }
        lemma_port_ordered_listing_unique(m1, t1, t2);
        assert(s1 =~= t1.push(a));
        assert(s2 =~= t2.push(b));
    }
}

impl ServiceCache {
    /// Each service is held under its own port.
    #[verifier::type_invariant]
    spec fn keyed_by_port(self) -> bool {
        forall|k: u16| #[trigger] self.services@.contains_key(k) ==> self.services@[k].port == k
    }

    /// An empty cache.
    pub fn new() -> (r: ServiceCache)
        ensures
            r@ == Map::<u16, ServiceInfoView>::empty(),
    {
        let r = ServiceCache { services: BTreeMap::new() };
        assert(r@ =~= Map::<u16, ServiceInfoView>::empty());
        r
    }

    /// The service on `port`, if one was found.
    pub fn get(&self, port: u16) -> (r: Option<&ServiceInfo>)
        ensures
            match r {
                Some(s) => self@.contains_key(port) && self@[port] == s@,
                None => !self@.contains_key(port),
            },
    {
        broadcast use vstd::std_specs::btree::group_btree_axioms;
        self.services.get(&port)
    }

    /// How many services the cache holds.
    pub fn len(&self) -> (r: usize)
        ensures
            r == self@.dom().len(),
    {
        broadcast use vstd::std_specs::btree::group_btree_axioms;
        assert(self@.dom() =~= self.services@.dom());
        self.services.len()
    }

    /// Records `s` as the service on its port, in place of any earlier one.
    pub fn insert(&mut self, s: ServiceInfo)
        ensures
            final(self)@ == old(self)@.insert(s.port, s@),
    {
        broadcast use vstd::std_specs::btree::group_btree_axioms;
        proof {
            use_type_invariant(&*self);
        }
        let ghost old_view = self@;
        let mut services = BTreeMap::new();
        std::mem::swap(&mut services, &mut self.services);
        let port = s.port;
        let ghost sv = s@;
        services.insert(port, s);
        self.services = services;
        assert(self@ =~= old_view.insert(port, sv));
    }

    /// Forgets the service on `port`, if there is one.
    pub fn remove(&mut self, port: u16)
        ensures
            final(self)@ == old(self)@.remove(port),
    {
        broadcast use vstd::std_specs::btree::group_btree_axioms;
        proof {
            use_type_invariant(&*self);
        }
        let ghost old_view = self@;
        let mut services = BTreeMap::new();
        std::mem::swap(&mut services, &mut self.services);
        services.remove(&port);
        self.services = services;
        assert(self@ =~= old_view.remove(port));
    }

    /// Forgets every service.
    pub fn clear(&mut self)
        ensures
            final(self)@ == Map::<u16, ServiceInfoView>::empty(),
    {
        broadcast use vstd::std_specs::btree::group_btree_axioms;
        self.services = BTreeMap::new();
        assert(self@ =~= Map::<u16, ServiceInfoView>::empty());
    }

    /// The services held, one per port, in increasing port order.
    pub fn services_by_port(&self) -> (r: Vec<ServiceInfo>)
        ensures
            port_ordered_listing(self@, service_views(r@)),
    {
        broadcast use vstd::std_specs::btree::group_btree_axioms;
        broadcast use vstd::laws_cmp::group_laws_cmp;
        proof {
            use_type_invariant(self);
        }
        let mut r: Vec<ServiceInfo> = Vec::new();
        let ghost seq = spec_btree_map_iter(&self.services).remaining();
        for kv in it: self.services.iter()
            invariant
                it.seq() == seq,
                r@.len() == it.index(),
                forall|j: int| 0 <= j < it.index() ==> (#[trigger] r@[j])@ == (*seq[j].1)@,
        {
            let s = kv.1.duplicate();
            r.push(s);
        }
        assert(r@.len() == seq.len());
        proof {
            let m = self.services@;
            let rv = service_views(r@);
            let keys = seq.map_values(|kv: (&u16, &ServiceInfo)| *kv.0);
            assert(increasing_seq(keys));
            assert forall|i: int| 0 <= i < rv.len() implies m.contains_key(*seq[i].0) && (
            #[trigger] rv[i]).port == *seq[i].0 && rv[i] == m[*seq[i].0]@ by {
                assert(rv[i] == r@[i]@);
                assert(m.contains_key(*seq[i].0));
            }
            assert forall|i: int, j: int| 0 <= i < j < rv.len() implies rv[i].port < rv[j].port by {
                assert(keys[i] == *seq[i].0);
                assert(keys[j] == *seq[j].0);
                assert(keys[i].cmp_spec(&keys[j]) is Less);
            }
            assert forall|k: u16| self@.contains_key(k) implies exists|i: int|
                0 <= i < rv.len() && (#[trigger] rv[i]).port == k by {
                assert(m.contains_key(k));
                assert(seq.contains((&k, &m[k])));
                let i = choose|i: int| 0 <= i < seq.len() && seq[i] == (&k, &m[k]);
                assert(rv[i].port == k);
            }
        }
        r
    }
}


impl ServiceCache {
    /// The open port to probe again for each service held, in increasing
    /// port order: the service's port, process, process id and start time.
    pub fn reprobe_targets(&self) -> (r: Vec<OpenPort>)
        ensures
            forall|i: int, j: int| 0 <= i < j < r@.len() ==> r@[i].port < r@[j].port,
            forall|i: int|
                0 <= i < r@.len() ==> self@.contains_key((#[trigger] r@[i]).port) && r@[i]@
                    == reprobe_target(self@[r@[i].port]),
            forall|k: u16|
                self@.contains_key(k) ==> exists|i: int| 0 <= i < r@.len() && (#[trigger] r@[i]).port == k,
    {
        let list = self.services_by_port();
        let ghost v = service_views(list@);
        let mut r: Vec<OpenPort> = Vec::new();
        let mut i: usize = 0;
        while i < list.len()
            invariant
                0 <= i <= list@.len(),
                v == service_views(list@),
                r@.len() == i,
                forall|j: int| 0 <= j < i ==> (#[trigger] r@[j])@ == reprobe_target(v[j]),
            decreases list@.len() - i,
        {
            let e = &list[i];
            let p = OpenPort {
                port: e.port,
                process_name: copy_opt_string(&e.process_name),
                pid: e.pid,
                start_time: e.start_time,
            };
            r.push(p);
            assert(v[i as int] == list@[i as int]@);
            i = i + 1;
        }
        assert forall|a: int, b: int| 0 <= a < b < r@.len() implies r@[a].port < r@[b].port by {
            assert(r@[a]@ == reprobe_target(v[a]));
            assert(r@[b]@ == reprobe_target(v[b]));
        }
        assert forall|a: int| 0 <= a < r@.len() implies self@.contains_key((#[trigger] r@[a]).port)
            && r@[a]@ == reprobe_target(self@[r@[a].port]) by {
            assert(r@[a]@ == reprobe_target(v[a]));
        }
        assert forall|k: u16| self@.contains_key(k) implies exists|a: int|
            0 <= a < r@.len() && (#[trigger] r@[a]).port == k by {
            let a = choose|a: int| 0 <= a < v.len() && (#[trigger] v[a]).port == k;
            assert(r@[a]@ == reprobe_target(v[a]));
        }
        r
    }
}

/// The open port through which a held service is probed again.
pub open spec fn reprobe_target(s: ServiceInfoView) -> OpenPortView {
    OpenPortView { port: s.port, process_name: s.process_name, pid: s.pid, start_time: s.start_time }
}


// ---------------------------------------------------------------------------
// Incremental scans
/// The elements of `s` that satisfy `f`, in order.
pub open spec fn keep<A>(s: Seq<A>, f: spec_fn(A) -> bool) -> Seq<A>
    decreases s.len(),
{
    if s.len() == 0 {
        seq![]
    } else if f(s[0]) {
        seq![s[0]] + keep(s.drop_first(), f)
    } else {
        keep(s.drop_first(), f)
    }
}

/// A port of the scan that the cache holds no service on.
pub open spec fn is_new_port(m: Map<u16, ServiceInfoView>, p: OpenPortView) -> bool {
    !m.contains_key(p.port)
}

/// A port of the scan whose service is held, but under another process name
/// or process id than the scan reports.
pub open spec fn owner_changed(m: Map<u16, ServiceInfoView>, p: OpenPortView) -> bool {
    m.contains_key(p.port) && (m[p.port].process_name != p.process_name || m[p.port].pid != p.pid)
}

/// `removed` lists, in increasing order, the ports of held services that the
/// scan no longer reports.
pub open spec fn removed_ports_ok(
    m: Map<u16, ServiceInfoView>,
    current: Seq<OpenPortView>,
    removed: Seq<u16>,
) -> bool {
    &&& forall|a: int, b: int| 0 <= a < b < removed.len() ==> removed[a] < removed[b]
    &&& forall|x: u16| removed.contains(x) <==> (m.contains_key(x) && !has_port(current, x))
}

/// What changed between the cache and a new scan.
pub struct ScanPlan {
    /// The ports of the scan that the cache holds nothing on, in scan order.
    pub new_ports: Vec<OpenPort>,
    /// The ports of the scan whose owning process changed, in scan order.
    pub changed_ports: Vec<OpenPort>,
    /// The held ports that the scan no longer reports, in increasing order.
    pub removed_ports: Vec<u16>,
}

/// The cache after the services probed in a scan were recorded, one after
/// the other.
pub open spec fn insert_all(m: Map<u16, ServiceInfoView>, s: Seq<ServiceInfoView>) -> Map<
    u16,
    ServiceInfoView,
>
    decreases s.len(),
{
    if s.len() == 0 {
        m
    } else {
        insert_all(m.insert(s[0].port, s[0]), s.drop_first())
    }
}

/// The cache after the services on `ports` were forgotten.
pub open spec fn remove_all(m: Map<u16, ServiceInfoView>, ports: Seq<u16>) -> Map<
    u16,
    ServiceInfoView,
>
    decreases ports.len(),
{
    if ports.len() == 0 {
        m
    } else {
        remove_all(m.remove(ports[0]), ports.drop_first())
    }
}

fn same_opt_string(a: &Option<String>, b: &Option<String>) -> (r: bool)
    ensures
        r == (opt_view(*a) == opt_view(*b)),
{
    match (a, b) {
        (Some(x), Some(y)) => crate::text::str_equals(x.as_str(), y.as_str()),
        (None, None) => true,
        _ => false,
    }
}

fn same_pid(a: Option<u32>, b: Option<u32>) -> (r: bool)
    ensures
        r == (a == b),
{
    match (a, b) {
        (Some(x), Some(y)) => x == y,
        (None, None) => true,
        _ => false,
    }
}

impl ServiceCache {
    /// Compares the cache with the ports a scan reports: which are new,
    /// which changed their owning process, and which held ports went away.
    pub fn plan_scan(&self, current: &Vec<OpenPort>) -> (r: ScanPlan)
        ensures
            open_port_views(r.new_ports@) == keep(
                open_port_views(current@),
                |p: OpenPortView| is_new_port(self@, p),
            ),
            open_port_views(r.changed_ports@) == keep(
                open_port_views(current@),
                |p: OpenPortView| owner_changed(self@, p),
            ),
            removed_ports_ok(self@, open_port_views(current@), r.removed_ports@),
    {
        let ghost cv = open_port_views(current@);
        let ghost fnew = |p: OpenPortView| is_new_port(self@, p);
        let ghost fchg = |p: OpenPortView| owner_changed(self@, p);
        let n = current.len();
        let mut new_ports: Vec<OpenPort> = Vec::new();
        let mut changed_ports: Vec<OpenPort> = Vec::new();
        let mut i: usize = 0;
        assert(cv.subrange(0, n as int) =~= cv);
        while i < n
            invariant
                0 <= i <= n == current@.len(),
                cv == open_port_views(current@),
                fnew == (|p: OpenPortView| is_new_port(self@, p)),
                fchg == (|p: OpenPortView| owner_changed(self@, p)),
                open_port_views(new_ports@) + keep(cv.subrange(i as int, n as int), fnew) == keep(
                    cv,
                    fnew,
                ),
                open_port_views(changed_ports@) + keep(cv.subrange(i as int, n as int), fchg)
                    == keep(cv, fchg),
            decreases n - i,
        {
            let ghost s = cv.subrange(i as int, n as int);
            let ghost bn = open_port_views(new_ports@);
            let ghost bc = open_port_views(changed_ports@);
            assert(s.drop_first() =~= cv.subrange(i + 1, n as int));
            let p = &current[i];
            assert(s[0] == p@);
            match self.get(p.port) {
                None => {
                    let q = p.duplicate();
                    new_ports.push(q);
                    assert(open_port_views(new_ports@) =~= bn.push(q@));
                    assert(bn + (seq![s[0]] + keep(s.drop_first(), fnew)) =~= bn.push(q@) + keep(
                        s.drop_first(),
                        fnew,
                    ));
                },
                Some(existing) => {
                    if !same_opt_string(&existing.process_name, &p.process_name) || !same_pid(
                        existing.pid,
                        p.pid,
                    ) {
                        let q = p.duplicate();
                        changed_ports.push(q);
                        assert(open_port_views(changed_ports@) =~= bc.push(q@));
                        assert(bc + (seq![s[0]] + keep(s.drop_first(), fchg)) =~= bc.push(q@)
                            + keep(s.drop_first(), fchg));
                    }
                },
            }
            i = i + 1;
        }
        assert(keep(cv.subrange(n as int, n as int), fnew) =~= seq![]);
        assert(keep(cv.subrange(n as int, n as int), fchg) =~= seq![]);
        assert(open_port_views(new_ports@) + seq![] =~= open_port_views(new_ports@));
        assert(open_port_views(changed_ports@) + seq![] =~= open_port_views(changed_ports@));
        let removed_ports = self.removed_ports(current);
        ScanPlan { new_ports, changed_ports, removed_ports }
    }

    fn removed_ports(&self, current: &Vec<OpenPort>) -> (r: Vec<u16>)
        ensures
            removed_ports_ok(self@, open_port_views(current@), r@),
    {
        let ghost cv = open_port_views(current@);
        let list = self.services_by_port();
        let ghost v = service_views(list@);
        let mut r: Vec<u16> = Vec::new();
        let mut i: usize = 0;
        while i < list.len()
            invariant
                0 <= i <= list@.len(),
                port_ordered_listing(self@, v),
                cv == open_port_views(current@),
                v == service_views(list@),
                forall|a: int, b: int| 0 <= a < b < r@.len() ==> r@[a] < r@[b],
                forall|a: int| #![trigger r@[a]] 0 <= a < r@.len() ==> exists|j: int| 0 <= j < i && (#[trigger] v[j]).port == r@[a],
                forall|a: int| 0 <= a < r@.len() ==> !has_port(cv, #[trigger] r@[a]),
                forall|j: int| 0 <= j < i && !has_port(cv, (#[trigger] v[j]).port) ==> r@.contains(v[j].port),
            decreases list@.len() - i,
        {
            let port = list[i].port;
            assert(v[i as int].port == port);
            if !crate::scanner::contains_port(current, port) {
                let ghost before = r@;
                r.push(port);
                assert forall|a: int, b: int| 0 <= a < b < r@.len() implies r@[a] < r@[b] by {
                    if b == r@.len() - 1 && a < b {
                        let j = choose|j: int| 0 <= j < i && (#[trigger] v[j]).port == r@[a];
                        assert(v[j].port < v[i as int].port);
                    }
                }
                assert forall|a: int| #![trigger r@[a]] 0 <= a < r@.len() implies exists|j: int| 0 <= j < i + 1 && (#[trigger] v[j]).port == r@[a] by {
                    if a < before.len() {
                        let j = choose|j: int| 0 <= j < i && (#[trigger] v[j]).port == before[a];
                        assert(v[j].port == r@[a]);
                    } else {
                        assert(v[i as int].port == r@[a]);
                    }
                }
                assert forall|j: int| 0 <= j < i + 1 && !has_port(cv, (#[trigger] v[j]).port) implies r@.contains(v[j].port) by {
                    if j < i {
                        assert(before.contains(v[j].port));
                        let a = choose|a: int| 0 <= a < before.len() && before[a] == v[j].port;
                        assert(r@[a] == v[j].port);
                    } else {
                        assert(r@[r@.len() - 1] == v[j].port);
                    }
                }
            }
            i = i + 1;
        }
        assert forall|x: u16| r@.contains(x) <==> (self@.contains_key(x) && !has_port(cv, x)) by {
            if r@.contains(x) {
                let a = choose|a: int| 0 <= a < r@.len() && r@[a] == x;
                let j = choose|j: int| 0 <= j < list@.len() && (#[trigger] v[j]).port == r@[a];
                assert(self@.contains_key(v[j].port));
            }
            if self@.contains_key(x) && !has_port(cv, x) {
                let j = choose|j: int| 0 <= j < v.len() && (#[trigger] v[j]).port == x;
            }
        }
        r
    }

    /// Records the services identified in a scan, one after the other, then
    /// forgets those on `removed`.
    pub fn apply_scan(&mut self, probed: Vec<ServiceInfo>, removed: &Vec<u16>)
        ensures
            final(self)@ == remove_all(insert_all(old(self)@, service_views(probed@)), removed@),
    {
        let ghost pv = service_views(probed@);
        let ghost m0 = self@;
        let n = probed.len();
        let mut i: usize = 0;
        assert(pv.subrange(0, n as int) =~= pv);
        while i < n
            invariant
                0 <= i <= n == probed@.len(),
                pv == service_views(probed@),
                insert_all(m0, pv) == insert_all(self@, pv.subrange(i as int, n as int)),
            decreases n - i,
        {
            let s = probed[i].duplicate();
            assert(pv.subrange(i as int, n as int).drop_first() =~= pv.subrange(i + 1, n as int));
            assert(pv[i as int] == s@);
            self.insert(s);
            i = i + 1;
        }
        let ghost m1 = self@;
        assert(m1 == insert_all(m0, pv));
        let k = removed.len();
        let mut j: usize = 0;
        assert(removed@.subrange(0, k as int) =~= removed@);
        while j < k
            invariant
                0 <= j <= k == removed@.len(),
                remove_all(m1, removed@) == remove_all(self@, removed@.subrange(j as int, k as int)),
            decreases k - j,
        {
            assert(removed@.subrange(j as int, k as int).drop_first() =~= removed@.subrange(
                j + 1,
                k as int,
            ));
            self.remove(removed[j]);
            j = j + 1;
        }
    }
}


/// Whether some service of `s` is on `port`.
pub open spec fn has_service_port(s: Seq<ServiceInfoView>, port: u16) -> bool {
    exists|i: int| 0 <= i < s.len() && (#[trigger] s[i]).port == port
}

/// Recording services one after the other adds their ports and leaves the
/// other entries alone; the entry on a recorded port is one of the services
/// recorded on it.
pub proof fn lemma_insert_all(m: Map<u16, ServiceInfoView>, s: Seq<ServiceInfoView>)
    ensures
        forall|k: u16|
            #[trigger] insert_all(m, s).contains_key(k) <==> (m.contains_key(k) || has_service_port(
                s,
                k,
            )),
        forall|k: u16|
            m.contains_key(k) && !has_service_port(s, k) ==> #[trigger] insert_all(m, s)[k]
                == m[k],
        forall|k: u16|
            #[trigger] has_service_port(s, k) ==> exists|i: int|
                0 <= i < s.len() && s[i].port == k && insert_all(m, s)[k] == s[i],
    decreases s.len(),
{
    if s.len() > 0 {
        let m1 = m.insert(s[0].port, s[0]);
        let rest = s.drop_first();
        lemma_insert_all(m1, rest);
        let r = insert_all(m, s);
        assert(r == insert_all(m1, rest));
        assert forall|k: u16| has_service_port(rest, k) implies has_service_port(s, k) by {
            let i = choose|i: int| 0 <= i < rest.len() && (#[trigger] rest[i]).port == k;
            assert(s[i + 1] == rest[i]);
        }
        assert forall|k: u16| has_service_port(s, k) && k != s[0].port implies has_service_port(
            rest,
            k,
        ) by {
            let i = choose|i: int| 0 <= i < s.len() && (#[trigger] s[i]).port == k;
            assert(i != 0);
            assert(rest[i - 1] == s[i]);
        }
        assert forall|k: u16| #[trigger] r.contains_key(k) <==> (m.contains_key(k) || has_service_port(s, k)) by {
            if k == s[0].port {
                assert(has_service_port(s, k)) by {
                    assert(s[0].port == k);
                }
            }
        }
        assert forall|k: u16| #[trigger] has_service_port(s, k) implies exists|i: int|
            0 <= i < s.len() && s[i].port == k && r[k] == s[i] by {
            if has_service_port(rest, k) {
                let i = choose|i: int|
                    0 <= i < rest.len() && rest[i].port == k && insert_all(m1, rest)[k] == rest[i];
                assert(s[i + 1] == rest[i]);
            } else {
                assert(k == s[0].port);
                assert(r[k] == m1[k]);
            }
        }
    }
}

/// Forgetting ports removes exactly them.
pub proof fn lemma_remove_all(m: Map<u16, ServiceInfoView>, ports: Seq<u16>)
    ensures
        forall|k: u16|
            #[trigger] remove_all(m, ports).contains_key(k) <==> (m.contains_key(k)
                && !ports.contains(k)),
        forall|k: u16|
            #[trigger] remove_all(m, ports).contains_key(k) ==> remove_all(m, ports)[k] == m[k],
    decreases ports.len(),
{
    if ports.len() > 0 {
        let m1 = m.remove(ports[0]);
        let rest = ports.drop_first();
        lemma_remove_all(m1, rest);
        assert(remove_all(m, ports) == remove_all(m1, rest));
        assert forall|k: u16| ports.contains(k) <==> (k == ports[0] || rest.contains(k)) by {
            if ports.contains(k) && k != ports[0] {
                let i = choose|i: int| 0 <= i < ports.len() && ports[i] == k;
                assert(rest[i - 1] == k);
            }
            if rest.contains(k) {
                let i = choose|i: int| 0 <= i < rest.len() && rest[i] == k;
                assert(ports[i + 1] == k);
            }
            if k == ports[0] {
                assert(ports[0] == k);
            }
        }
    }
}

proof fn lemma_keep<A>(s: Seq<A>, f: spec_fn(A) -> bool)
    ensures
        forall|i: int| 0 <= i < keep(s, f).len() ==> s.contains(#[trigger] keep(s, f)[i]) && f(keep(s, f)[i]),
        forall|i: int| 0 <= i < s.len() && f(#[trigger] s[i]) ==> keep(s, f).contains(s[i]),
    decreases s.len(),
{
    if s.len() > 0 {
        let rest = s.drop_first();
        lemma_keep(rest, f);
        let k = keep(s, f);
        let kr = keep(rest, f);
        assert forall|i: int| 0 <= i < k.len() implies s.contains(#[trigger] k[i]) && f(k[i]) by {
            if f(s[0]) {
                if i == 0 {
                    assert(s[0] == k[0]);
                } else {
                    assert(k[i] == kr[i - 1]);
                    let j = choose|j: int| 0 <= j < rest.len() && rest[j] == kr[i - 1];
                    assert(s[j + 1] == rest[j]);
                }
            } else {
                assert(k[i] == kr[i]);
                let j = choose|j: int| 0 <= j < rest.len() && rest[j] == kr[i];
                assert(s[j + 1] == rest[j]);
            }
        }
        assert forall|i: int| 0 <= i < s.len() && f(#[trigger] s[i]) implies k.contains(s[i]) by {
            if i == 0 {
                assert(k[0] == s[0]);
            } else {
                assert(rest[i - 1] == s[i]);
                let j = choose|j: int| 0 <= j < kr.len() && kr[j] == rest[i - 1];
                if f(s[0]) {
                    assert(k[j + 1] == kr[j]);
                } else {
                    assert(k[j] == kr[j]);
                }
            }
        }
    }
}

/// How a scan sorts its ports. A port of the scan is new exactly when the
/// cache holds no service on it, and it is among the changed ports exactly
/// when the cache holds a service on it under another process name or
/// another process id; a port held under the same name and id is in
/// neither list and is not probed again.
pub proof fn lemma_scan_classes(
    m: Map<u16, ServiceInfoView>,
    current: Seq<OpenPortView>,
    p: OpenPortView,
)
    requires
        current.contains(p),
    ensures
        keep(current, |q: OpenPortView| is_new_port(m, q)).contains(p) <==> !m.contains_key(p.port),
        keep(current, |q: OpenPortView| owner_changed(m, q)).contains(p) <==> (m.contains_key(p.port)
            && (m[p.port].process_name != p.process_name || m[p.port].pid != p.pid)),
        (m.contains_key(p.port) && m[p.port].process_name == p.process_name && m[p.port].pid
            == p.pid) ==> !probed_ports(m, current).contains(p),
{
    let fnew = |q: OpenPortView| is_new_port(m, q);
    let fchg = |q: OpenPortView| owner_changed(m, q);
    lemma_keep(current, fnew);
    lemma_keep(current, fchg);
    let i = choose|i: int| 0 <= i < current.len() && current[i] == p;
    assert(current[i] == p);
    let kn = keep(current, fnew);
    let kc = keep(current, fchg);
    if kn.contains(p) {
        let j = choose|j: int| 0 <= j < kn.len() && kn[j] == p;
        assert(fnew(kn[j]));
    }
    if kc.contains(p) {
        let j = choose|j: int| 0 <= j < kc.len() && kc[j] == p;
        assert(fchg(kc[j]));
    }
    if m.contains_key(p.port) && m[p.port].process_name == p.process_name && m[p.port].pid == p.pid {
        let pp = probed_ports(m, current);
        if pp.contains(p) {
            let j = choose|j: int| 0 <= j < pp.len() && pp[j] == p;
            if j < kn.len() {
                assert(pp[j] == kn[j]);
                assert(fnew(kn[j]));
            } else {
                assert(pp[j] == kc[j - kn.len()]);
                assert(fchg(kc[j - kn.len()]));
            }
        }
    }
}

/// The ports an incremental scan probes: the new ones, then those whose
/// owner changed, each in scan order.
pub open spec fn probed_ports(m: Map<u16, ServiceInfoView>, current: Seq<OpenPortView>) -> Seq<
    OpenPortView,
> {
    keep(current, |p: OpenPortView| is_new_port(m, p)) + keep(
        current,
        |p: OpenPortView| owner_changed(m, p),
    )
}

/// An incremental scan keeps the cache in step with the machine. After the
/// services of the new and changed ports are recorded (one per such port,
/// in the order of `probed_ports`, each on the port it was found on) and the
/// services of the removed ports forgotten:
/// the cache holds a service on exactly the ports the scan reported;
/// a port that was neither new nor changed keeps the service it had, without
/// a new probe; and each probed port holds one of the services probed on it.
pub proof fn lemma_scan_reconciles(
    known: Map<u16, ServiceInfoView>,
    current: Seq<OpenPortView>,
    probed: Seq<ServiceInfoView>,
    removed: Seq<u16>,
)
    requires
        probed.len() == probed_ports(known, current).len(),
        forall|i: int|
            0 <= i < probed.len() ==> (#[trigger] probed[i]).port == probed_ports(
                known,
                current,
            )[i].port,
        removed_ports_ok(known, current, removed),
    ensures
        forall|k: u16|
            #[trigger] remove_all(insert_all(known, probed), removed).contains_key(k) <==> has_port(
                current,
                k,
            ),
        forall|k: u16|
            has_port(current, k) && !has_port(probed_ports(known, current), k) ==> #[trigger] remove_all(
                insert_all(known, probed),
                removed,
            )[k] == known[k],
        forall|k: u16|
            #[trigger] has_port(probed_ports(known, current), k) ==> exists|i: int|
                0 <= i < probed.len() && probed[i].port == k && remove_all(
                    insert_all(known, probed),
                    removed,
                )[k] == probed[i],
{
    let pp = probed_ports(known, current);
    let fnew = |p: OpenPortView| is_new_port(known, p);
    let fchg = |p: OpenPortView| owner_changed(known, p);
    let kn = keep(current, fnew);
    let kc = keep(current, fchg);
    lemma_keep(current, fnew);
    lemma_keep(current, fchg);
    lemma_insert_all(known, probed);
    let ins = insert_all(known, probed);
    lemma_remove_all(ins, removed);
    let after = remove_all(ins, removed);
    assert forall|k: u16| has_service_port(probed, k) <==> has_port(pp, k) by {
        if has_service_port(probed, k) {
            let i = choose|i: int| 0 <= i < probed.len() && (#[trigger] probed[i]).port == k;
            assert(pp[i].port == k);
        }
        if has_port(pp, k) {
            let i = choose|i: int| 0 <= i < pp.len() && (#[trigger] pp[i]).port == k;
            assert(probed[i].port == k);
        }
    }
    assert forall|k: u16| has_port(pp, k) implies has_port(current, k) by {
        let i = choose|i: int| 0 <= i < pp.len() && (#[trigger] pp[i]).port == k;
        if i < kn.len() {
            assert(pp[i] == kn[i]);
            assert(current.contains(kn[i]));
            let j = choose|j: int| 0 <= j < current.len() && current[j] == kn[i];
            assert(current[j].port == k);
        } else {
            assert(pp[i] == kc[i - kn.len()]);
            assert(current.contains(kc[i - kn.len()]));
            let j = choose|j: int| 0 <= j < current.len() && current[j] == kc[i - kn.len()];
            assert(current[j].port == k);
        }
    }
    assert forall|k: u16| has_port(current, k) && !known.contains_key(k) implies has_port(pp, k) by {
        let j = choose|j: int| 0 <= j < current.len() && (#[trigger] current[j]).port == k;
        assert(fnew(current[j]));
        assert(kn.contains(current[j]));
        let i = choose|i: int| 0 <= i < kn.len() && kn[i] == current[j];
        assert(pp[i] == kn[i]);
    }
    assert forall|k: u16| #[trigger] after.contains_key(k) <==> has_port(current, k) by {
        if has_port(current, k) {
            assert(!removed.contains(k));
            if !known.contains_key(k) {
                assert(has_service_port(probed, k));
            }
        }
    }
    assert forall|k: u16| has_port(current, k) && !has_port(pp, k) implies #[trigger] after[k]
        == known[k] by {
        assert(known.contains_key(k));
        assert(!has_service_port(probed, k));
        assert(after.contains_key(k));
    }
    assert forall|k: u16| #[trigger] has_port(pp, k) implies exists|i: int|
        0 <= i < probed.len() && probed[i].port == k && after[k] == probed[i] by {
        assert(has_service_port(probed, k));
        assert(has_port(current, k));
        assert(after.contains_key(k));
    }
}

/// Probing every held service again, and recording each result on the port
/// it was found on, leaves the set of held ports as it was.
pub proof fn lemma_reprobe_keeps_ports(known: Map<u16, ServiceInfoView>, probed: Seq<ServiceInfoView>)
    requires
        forall|i: int| 0 <= i < probed.len() ==> known.contains_key((#[trigger] probed[i]).port),
    ensures
        insert_all(known, probed).dom() == known.dom(),
{
    lemma_insert_all(known, probed);
    assert forall|k: u16| has_service_port(probed, k) implies known.contains_key(k) by {
        let i = choose|i: int| 0 <= i < probed.len() && (#[trigger] probed[i]).port == k;
    }
    assert(insert_all(known, probed).dom() =~= known.dom());
}


// ---------------------------------------------------------------------------
// The full re-probe schedule
/// Every service is probed again once this much time passed since the last
/// full probe: five minutes, in nanoseconds.
pub const FULL_REPROBE_INTERVAL_NANOS: u128 = 300_000_000_000;

/// Whether every held service is due to be probed again, `elapsed_nanos`
/// after the last full probe.
pub fn needs_full_reprobe(elapsed_nanos: u128) -> (r: bool)
    ensures
        r == (elapsed_nanos > FULL_REPROBE_INTERVAL_NANOS),
{
    elapsed_nanos > FULL_REPROBE_INTERVAL_NANOS
}

/// The time left until the next full probe, `elapsed` after the last one.
pub open spec fn nanos_until_full_reprobe(elapsed: int) -> int {
    if elapsed < FULL_REPROBE_INTERVAL_NANOS {
        FULL_REPROBE_INTERVAL_NANOS - elapsed
    } else {
        0
    }
}

/// The state of the scanner, as the statistics endpoint reports it.
pub struct ScannerStats {
    /// How many services are held.
    pub service_count: usize,
    /// How long ago the last full probe was, in nanoseconds.
    pub last_full_scan_nanos_ago: u128,
    /// How long until the next full probe, in nanoseconds.
    pub time_until_full_scan_nanos: u128,
}

impl ScannerStats {
    /// Whole seconds since the last full probe.
    pub fn last_full_scan_seconds_ago(&self) -> (r: u128)
        ensures
            r == self.last_full_scan_nanos_ago / 1_000_000_000,
    {
        self.last_full_scan_nanos_ago / 1_000_000_000
    }

    /// Whole seconds until the next full probe.
    pub fn next_full_scan_in_seconds(&self) -> (r: u128)
        ensures
            r == self.time_until_full_scan_nanos / 1_000_000_000,
    {
        self.time_until_full_scan_nanos / 1_000_000_000
    }
}

impl ServiceCache {
    /// The statistics of the cache, `elapsed_nanos` after the last full probe.
    pub fn stats(&self, elapsed_nanos: u128) -> (r: ScannerStats)
        ensures
            r.service_count == self@.dom().len(),
            r.last_full_scan_nanos_ago == elapsed_nanos,
            r.time_until_full_scan_nanos == nanos_until_full_reprobe(elapsed_nanos as int),
    {
        let left = if elapsed_nanos < FULL_REPROBE_INTERVAL_NANOS {
            FULL_REPROBE_INTERVAL_NANOS - elapsed_nanos
        } else {
            0
        };
        ScannerStats {
            service_count: self.len(),
            last_full_scan_nanos_ago: elapsed_nanos,
            time_until_full_scan_nanos: left,
        }
    }
}

/// A full probe is due exactly when no time is left before it and the
/// interval was overrun; before that, the time passed and the time left add
/// up to the interval.
pub proof fn lemma_reprobe_schedule(elapsed: u128)
    ensures
        elapsed > FULL_REPROBE_INTERVAL_NANOS ==> nanos_until_full_reprobe(elapsed as int) == 0,
        elapsed <= FULL_REPROBE_INTERVAL_NANOS ==> elapsed + nanos_until_full_reprobe(
            elapsed as int,
        ) == FULL_REPROBE_INTERVAL_NANOS,
        0 <= nanos_until_full_reprobe(elapsed as int) <= FULL_REPROBE_INTERVAL_NANOS,
{
}

} // verus!
