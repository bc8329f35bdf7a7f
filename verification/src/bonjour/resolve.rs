use vstd::prelude::*;
use super::dns_parse::{pair_views, DnsRData, DnsRecord, RDataView};
use super::dns_query::{split_fullname, split_fullname_spec};
use super::packet::HostAddr;

verus! {

/// A record as the resolver reads it: owner name, TTL and data.
pub type RecordView = (Seq<u8>, u32, RDataView);

/// The views of the records.
pub open spec fn record_views(records: Seq<DnsRecord>) -> Seq<RecordView> {
    records.map_values(|r: DnsRecord| r.view_tuple())
}

/// The byte with ASCII upper case letters made lower case.
pub open spec fn lower_byte(b: u8) -> u8 {
    if 0x41 <= b <= 0x5A {
        (b + 0x20) as u8
    } else {
        b
    }
}

/// The key a host name is matched by: its ASCII letters in lower case.
pub open spec fn name_key(name: Seq<u8>) -> Seq<u8> {
    Seq::new(name.len(), |i: int| lower_byte(name[i]))
}

/// The data of an address record for an address of the host.
pub open spec fn addr_view(a: HostAddr) -> RDataView {
    match a {
        HostAddr::V4(o) => RDataView::A(o@),
        HostAddr::V6(o) => RDataView::Aaaa(o@),
    }
}

/// The key/value map that TXT pairs give: a later pair replaces an earlier one with the
/// same key.
pub open spec fn pairs_map(pairs: Seq<(Seq<u8>, Seq<u8>)>) -> Map<Seq<u8>, Seq<u8>>
    decreases pairs.len(),
{
    if pairs.len() == 0 {
        Map::empty()
    } else {
        pairs_map(pairs.drop_last()).insert(pairs.last().0, pairs.last().1)
    }
}

/// What is known of a resolved service instance.
#[derive(Debug, Clone)]
pub struct ServiceMeta {
    pub hostname: Vec<u8>,
    pub port: u16,
    pub ips: Vec<HostAddr>,
    pub txt: Vec<(Vec<u8>, Vec<u8>)>,
    pub service_type: Vec<u8>,
    pub instance_name: Vec<u8>,
    pub fullname: Vec<u8>,
}

/// A service instance as plain values.
pub struct MetaView {
    pub hostname: Seq<u8>,
    pub port: u16,
    pub ips: Seq<RDataView>,
    pub txt: Seq<(Seq<u8>, Seq<u8>)>,
    pub service_type: Seq<u8>,
    pub instance_name: Seq<u8>,
    pub fullname: Seq<u8>,
}

impl View for ServiceMeta {
    type V = MetaView;

    open spec fn view(&self) -> MetaView {
        MetaView {
            hostname: self.hostname@,
            port: self.port,
            ips: self.ips@.map_values(|a: HostAddr| addr_view(a)),
            txt: pair_views(self.txt@),
            service_type: self.service_type@,
            instance_name: self.instance_name@,
            fullname: self.fullname@,
        }
    }
}

/// The views of the observed instances.
pub open spec fn observed_views(observed: Seq<ServiceMeta>) -> Seq<MetaView> {
    observed.map_values(|m: ServiceMeta| m@)
}

/// No two observed instances share a full name, as in a map keyed by it.
pub open spec fn fullnames_distinct(obs: Seq<MetaView>) -> bool {
    forall|i: int, j: int| 0 <= i < j < obs.len() ==> obs[i].fullname != obs[j].fullname
}

/// Whether two descriptions of an instance say the same: the TXT data compared as maps.
pub open spec fn same_meta(a: MetaView, b: MetaView) -> bool {
    &&& a.hostname == b.hostname
    &&& a.port == b.port
    &&& a.ips == b.ips
    &&& pairs_map(a.txt) == pairs_map(b.txt)
    &&& a.service_type == b.service_type
    &&& a.instance_name == b.instance_name
    &&& a.fullname == b.fullname
}

/// The target of a goodbye: a PTR record with TTL 0 whose target is a full service name.
pub open spec fn goodbye_of(r: RecordView) -> Option<Seq<u8>> {
    match r.2 {
        RDataView::Ptr(t) => if r.1 == 0 && split_fullname_spec(t) is Some {
            Some(t)
        } else {
            None
        },
        _ => None,
    }
}

/// The removals the records announce, in record order: service type and full name.
pub open spec fn goodbyes(recs: Seq<RecordView>) -> Seq<(Seq<u8>, Seq<u8>)>
    decreases recs.len(),
{
    if recs.len() == 0 {
        Seq::empty()
    } else {
        let prev = goodbyes(recs.drop_last());
        match goodbye_of(recs.last()) {
            Some(t) => prev.push((split_fullname_spec(t).unwrap().1, t)),
            None => prev,
        }
    }
}

/// Whether some record says goodbye for `f`.
pub open spec fn said_goodbye(recs: Seq<RecordView>, f: Seq<u8>) -> bool
    decreases recs.len(),
{
    recs.len() > 0 && (goodbye_of(recs.last()) == Some(f) || said_goodbye(recs.drop_last(), f))
}

/// The TTL of the last PTR record, not a goodbye, that points at `f`, when `f` is a full
/// service name.
pub open spec fn ptr_ttl(recs: Seq<RecordView>, f: Seq<u8>) -> Option<u32>
    decreases recs.len(),
{
    if recs.len() == 0 {
        None
    } else {
        let r = recs.last();
        if r.2 == RDataView::Ptr(f) && r.1 != 0 && split_fullname_spec(f) is Some {
            Some(r.1)
        } else {
            ptr_ttl(recs.drop_last(), f)
        }
    }
}

/// Target, port and TTL of the last SRV record of `f`.
pub open spec fn srv_of(recs: Seq<RecordView>, f: Seq<u8>) -> Option<(Seq<u8>, u16, u32)>
    decreases recs.len(),
{
    if recs.len() == 0 {
        None
    } else {
        let r = recs.last();
        match r.2 {
            RDataView::Srv(t, p) => if r.0 == f {
                Some((t, p, r.1))
            } else {
                srv_of(recs.drop_last(), f)
            },
            _ => srv_of(recs.drop_last(), f),
        }
    }
}

/// Pairs and TTL of the last TXT record of `f`.
pub open spec fn txt_of(recs: Seq<RecordView>, f: Seq<u8>) -> Option<(Seq<(Seq<u8>, Seq<u8>)>, u32)>
    decreases recs.len(),
{
    if recs.len() == 0 {
        None
    } else {
        let r = recs.last();
        match r.2 {
            RDataView::Txt(ps) => if r.0 == f {
                Some((ps, r.1))
            } else {
                txt_of(recs.drop_last(), f)
            },
            _ => txt_of(recs.drop_last(), f),
        }
    }
}

/// Whether `r` is an address record of a host with key `key`.
pub open spec fn is_host_addr(r: RecordView, key: Seq<u8>) -> bool {
    name_key(r.0) == key && (r.2 is A || r.2 is Aaaa)
}

/// The addresses of the host with key `key`, in record order.
pub open spec fn host_ips(recs: Seq<RecordView>, key: Seq<u8>) -> Seq<RDataView>
    decreases recs.len(),
{
    if recs.len() == 0 {
        Seq::empty()
    } else {
        let prev = host_ips(recs.drop_last(), key);
        if is_host_addr(recs.last(), key) {
            prev.push(recs.last().2)
        } else {
            prev
        }
    }
}

/// The smaller of two optional TTLs, or the one that is there.
pub open spec fn min_ttl(a: Option<u32>, b: Option<u32>) -> Option<u32> {
    match (a, b) {
        (Some(x), Some(y)) => Some(if x <= y { x } else { y }),
        (Some(x), None) => Some(x),
        (None, y) => y,
    }
}

/// The smallest TTL of the address records of the host with key `key`.
pub open spec fn host_ttl(recs: Seq<RecordView>, key: Seq<u8>) -> Option<u32>
    decreases recs.len(),
{
    if recs.len() == 0 {
        None
    } else {
        let prev = host_ttl(recs.drop_last(), key);
        if is_host_addr(recs.last(), key) {
            min_ttl(prev, Some(recs.last().1))
        } else {
            prev
        }
    }
}

/// The observed instance named `f`, the last one when there are several.
pub open spec fn observed_of(obs: Seq<MetaView>, f: Seq<u8>) -> Option<MetaView>
    decreases obs.len(),
{
    if obs.len() == 0 {
        None
    } else if obs.last().fullname == f {
        Some(obs.last())
    } else {
        observed_of(obs.drop_last(), f)
    }
}

/// What was known of `f` before the records, once the goodbyes have removed theirs.
pub open spec fn old_of(recs: Seq<RecordView>, obs: Seq<MetaView>, f: Seq<u8>) -> Option<MetaView> {
    if said_goodbye(recs, f) {
        None
    } else {
        observed_of(obs, f)
    }
}

/// Whether the records concern `f`: a PTR to it, its SRV or TXT, or an address of the host
/// of what was known of it.
pub open spec fn touched(recs: Seq<RecordView>, obs: Seq<MetaView>, f: Seq<u8>) -> bool {
    ||| ptr_ttl(recs, f) is Some
    ||| srv_of(recs, f) is Some
    ||| txt_of(recs, f) is Some
    ||| (old_of(recs, obs, f) matches Some(o) && host_ttl(recs, name_key(o.hostname)) is Some)
}

/// What the records resolve `f` to, with the TTL of the result and whether it differs from
/// what was known: host, port and TXT from the records, else from what was known; the
/// addresses of the host from the records, else what was known; nothing when `f` does not
/// split into instance and service type, or when port or host is missing. The TTL is the
/// smallest of those of the PTR, SRV, TXT and address records, 120 when there are none.
pub open spec fn resolution(recs: Seq<RecordView>, obs: Seq<MetaView>, f: Seq<u8>) -> Option<(MetaView, u32, bool)> {
    match split_fullname_spec(f) {
        None => None,
        Some((inst, st)) => {
            let old = old_of(recs, obs, f);
            let srv = srv_of(recs, f);
            let txt = txt_of(recs, f);
            let hostname = match srv {
                Some(s) => s.0,
                None => match old {
                    Some(o) => o.hostname,
                    None => Seq::empty(),
                },
            };
            let port = match srv {
                Some(s) => s.1,
                None => match old {
                    Some(o) => o.port,
                    None => 0u16,
                },
            };
            let pairs = match txt {
                Some(t) => t.0,
                None => match old {
                    Some(o) => o.txt,
                    None => Seq::empty(),
                },
            };
            let key = name_key(hostname);
            let ips = if host_ttl(recs, key) is Some {
                host_ips(recs, key)
            } else {
                match old {
                    Some(o) => o.ips,
                    None => Seq::empty(),
                }
            };
            if port == 0 || hostname.len() == 0 {
                None
            } else {
                let srv_ttl = match srv {
                    Some(s) => Some(s.2),
                    None => None,
                };
                let txt_ttl = match txt {
                    Some(t) => Some(t.1),
                    None => None,
                };
                let ttl = match min_ttl(min_ttl(min_ttl(ptr_ttl(recs, f), srv_ttl), txt_ttl), host_ttl(recs, key)) {
                    Some(x) => x,
                    None => 120u32,
                };
                let meta = MetaView {
                    hostname,
                    port,
                    ips,
                    txt: pairs,
                    service_type: st,
                    instance_name: inst,
                    fullname: f,
                };
                let changed = match old {
                    None => true,
                    Some(o) => !same_meta(o, meta),
                };
                Some((meta, ttl, changed))
            }
        },
    }
}

/// The key a host name is matched by: its ASCII letters in lower case.
pub fn dns_name_key(name: &[u8]) -> (r: Vec<u8>)
    ensures
        r@ == name_key(name@),
{
    let mut out: Vec<u8> = Vec::new();
    let mut i: usize = 0;
    while i < name.len()
        invariant
            i <= name@.len(),
            out@ == name_key(name@).subrange(0, i as int),
        decreases name@.len() - i,
    {
        let b = name[i];
        let l: u8 = if 0x41 <= b && b <= 0x5A { b + 0x20 } else { b };
        out.push(l);
        i = i + 1;
    }
    out
}

/// Whether two byte strings are equal.
pub(crate) fn bytes_eq(a: &[u8], b: &[u8]) -> (r: bool)
    ensures
        r == (a@ == b@),
{
    if a.len() != b.len() {
        return false;
    }
    let mut i: usize = 0;
    while i < a.len()
        invariant
            i <= a@.len(),
            a@.len() == b@.len(),
            a@.subrange(0, i as int) == b@.subrange(0, i as int),
        decreases a@.len() - i,
    {
        if a[i] != b[i] {
            return false;
        }
        proof {
            assert(a@.subrange(0, i + 1) == a@.subrange(0, i as int).push(a@[i as int]));
            assert(b@.subrange(0, i + 1) == b@.subrange(0, i as int).push(b@[i as int]));
        }
        i = i + 1;
    }
    proof {
        assert(a@.subrange(0, a@.len() as int) == a@);
        assert(b@.subrange(0, b@.len() as int) == b@);
    }
    true
}

/// A copy of the bytes.
fn copy_bytes(a: &[u8]) -> (r: Vec<u8>)
    ensures
        r@ == a@,
{
    let mut out: Vec<u8> = Vec::new();
    out.extend_from_slice(a);
    out
}

/// A copy of the pairs.
fn copy_pairs(ps: &Vec<(Vec<u8>, Vec<u8>)>) -> (r: Vec<(Vec<u8>, Vec<u8>)>)
    ensures
        pair_views(r@) == pair_views(ps@),
{
    let mut out: Vec<(Vec<u8>, Vec<u8>)> = Vec::new();
    let mut i: usize = 0;
    while i < ps.len()
        invariant
            i <= ps@.len(),
            pair_views(out@) == pair_views(ps@).subrange(0, i as int),
        decreases ps@.len() - i,
    {
        let k = copy_bytes(ps[i].0.as_slice());
        let v = copy_bytes(ps[i].1.as_slice());
        let ghost prev = out@;
        out.push((k, v));
        proof {
            assert(out@ == prev.push((k, v)));
            assert(pair_views(prev).len() == prev.len());
            assert(prev.len() == i);
            assert forall|j: int| 0 <= j < i implies pair_views(out@)[j] == pair_views(prev)[j] by {
                assert(out@[j] == prev[j]);
            }
            assert(pair_views(out@) =~= pair_views(ps@).subrange(0, i + 1));
        }
        i = i + 1;
    }
    out
}

/// Whether two addresses are the same.
fn addr_eq(a: &HostAddr, b: &HostAddr) -> (r: bool)
    ensures
        r == (addr_view(*a) == addr_view(*b)),
{
    match (a, b) {
        (HostAddr::V4(x), HostAddr::V4(y)) => bytes_eq(x.as_slice(), y.as_slice()),
        (HostAddr::V6(x), HostAddr::V6(y)) => bytes_eq(x.as_slice(), y.as_slice()),
        _ => false,
    }
}

/// Whether two address lists are the same, in order.
fn addrs_eq(a: &Vec<HostAddr>, b: &Vec<HostAddr>) -> (r: bool)
    ensures
        r == (a@.map_values(|x: HostAddr| addr_view(x)) == b@.map_values(|x: HostAddr| addr_view(x))),
{
    let ghost va = a@.map_values(|x: HostAddr| addr_view(x));
    let ghost vb = b@.map_values(|x: HostAddr| addr_view(x));
    if a.len() != b.len() {
        proof {
            assert(va.len() != vb.len());
        }
        return false;
    }
    let mut i: usize = 0;
    while i < a.len()
        invariant
            i <= a@.len(),
            a@.len() == b@.len(),
            va == a@.map_values(|x: HostAddr| addr_view(x)),
            vb == b@.map_values(|x: HostAddr| addr_view(x)),
            forall|k: int| 0 <= k < i ==> va[k] == vb[k],
        decreases a@.len() - i,
    {
        if !addr_eq(&a[i], &b[i]) {
            proof {
                assert(va[i as int] != vb[i as int]);
            }
            return false;
        }
        i = i + 1;
    }
    proof {
        assert(va =~= vb);
    }
    true
}

/// The value of the last pair with key `k`.
pub open spec fn last_value(ps: Seq<(Seq<u8>, Seq<u8>)>, k: Seq<u8>) -> Option<Seq<u8>>
    decreases ps.len(),
{
    if ps.len() == 0 {
        None
    } else if ps.last().0 == k {
        Some(ps.last().1)
    } else {
        last_value(ps.drop_last(), k)
    }
}

/// The map of pairs holds `k` exactly when a pair has key `k`, with the value of the last.
proof fn lemma_pairs_map_lookup(ps: Seq<(Seq<u8>, Seq<u8>)>, k: Seq<u8>)
    ensures
        pairs_map(ps).contains_key(k) == (last_value(ps, k) is Some),
        last_value(ps, k) matches Some(v) ==> pairs_map(ps)[k] == v,
        (last_value(ps, k) is Some) == (exists|i: int| 0 <= i < ps.len() && #[trigger] ps[i].0 == k),
    decreases ps.len(),
{
    if ps.len() > 0 {
        let prev = ps.drop_last();
        lemma_pairs_map_lookup(prev, k);
        if ps.last().0 == k {
            assert(ps[ps.len() - 1].0 == k);
        } else {
            if exists|i: int| 0 <= i < ps.len() && #[trigger] ps[i].0 == k {
                let i = choose|i: int| 0 <= i < ps.len() && #[trigger] ps[i].0 == k;
                assert(i < ps.len() - 1);
                assert(prev[i] == ps[i]);
            }
            if exists|i: int| 0 <= i < prev.len() && #[trigger] prev[i].0 == k {
                let i = choose|i: int| 0 <= i < prev.len() && #[trigger] prev[i].0 == k;
                assert(prev[i] == ps[i]);
            }
        }
    }
}

/// Index of the last pair with key `k`.
fn find_last_key(ps: &Vec<(Vec<u8>, Vec<u8>)>, k: &[u8]) -> (r: Option<usize>)
    ensures
        match r {
            None => last_value(pair_views(ps@), k@) is None,
            Some(j) => j < ps@.len() && last_value(pair_views(ps@), k@) == Some(ps@[j as int].1@),
        },
{
    let ghost pv = pair_views(ps@);
    let mut found: Option<usize> = None;
    let mut i: usize = 0;
    while i < ps.len()
        invariant
            i <= ps@.len(),
            pv == pair_views(ps@),
            match found {
                None => last_value(pv.subrange(0, i as int), k@) is None,
                Some(j) => j < i && last_value(pv.subrange(0, i as int), k@) == Some(ps@[j as int].1@),
            },
        decreases ps@.len() - i,
    {
        if bytes_eq(ps[i].0.as_slice(), k) {
            found = Some(i);
        }
        proof {
            assert(pv.subrange(0, i + 1).drop_last() == pv.subrange(0, i as int));
            assert(pv[i as int] == (ps@[i as int].0@, ps@[i as int].1@));
        }
        i = i + 1;
    }
    proof {
        assert(pv.subrange(0, pv.len() as int) == pv);
    }
    found
}

/// Whether two lists of TXT pairs give the same key/value map.
fn txt_same(a: &Vec<(Vec<u8>, Vec<u8>)>, b: &Vec<(Vec<u8>, Vec<u8>)>) -> (r: bool)
    ensures
        r == (pairs_map(pair_views(a@)) == pairs_map(pair_views(b@))),
{
    let ghost pa = pair_views(a@);
    let ghost pb = pair_views(b@);
    let mut i: usize = 0;
    while i < a.len()
        invariant
            i <= a@.len(),
            pa == pair_views(a@),
            pb == pair_views(b@),
            forall|j: int|
                0 <= j < i ==> #[trigger] last_value(pb, pa[j].0) is Some && last_value(pb, pa[j].0) == last_value(
                    pa,
                    pa[j].0,
                ),
        decreases a@.len() - i,
    {
        let ghost key = pa[i as int].0;
        assert(a@[i as int].0@ == key);
        proof {
            lemma_pairs_map_lookup(pa, key);
            assert(pa[i as int].0 == key);
        }
        let ia = find_last_key(a, a[i].0.as_slice());
        let ib = find_last_key(b, a[i].0.as_slice());
        match (ia, ib) {
            (Some(x), Some(y)) => {
                if !bytes_eq(a[x].1.as_slice(), b[y].1.as_slice()) {
                    proof {
                        lemma_pairs_map_lookup(pb, key);
                        assert(pairs_map(pa)[key] != pairs_map(pb)[key]);
                    }
                    return false;
                }
            },
            (_, None) => {
                proof {
                    lemma_pairs_map_lookup(pb, key);
                    assert(pairs_map(pa).contains_key(key));
                    assert(!pairs_map(pb).contains_key(key));
                }
                return false;
            },
            (None, Some(_)) => {
                return false;
            },
        }
        i = i + 1;
    }
    let mut j: usize = 0;
    while j < b.len()
        invariant
            j <= b@.len(),
            pa == pair_views(a@),
            pb == pair_views(b@),
            forall|x: int| 0 <= x < j ==> #[trigger] last_value(pa, pb[x].0) is Some,
        decreases b@.len() - j,
    {
        let ghost key = pb[j as int].0;
        assert(b@[j as int].0@ == key);
        if find_last_key(a, b[j].0.as_slice()).is_none() {
            proof {
                lemma_pairs_map_lookup(pb, key);
                lemma_pairs_map_lookup(pa, key);
                assert(pb[j as int].0 == key);
                assert(pairs_map(pb).contains_key(key));
                assert(!pairs_map(pa).contains_key(key));
            }
            return false;
        }
        j = j + 1;
    }
    proof {
        assert forall|k: Seq<u8>| #[trigger] pairs_map(pa).dom().contains(k) implies pairs_map(pb).dom().contains(k)
            && pairs_map(pb)[k] == pairs_map(pa)[k] by {
            lemma_pairs_map_lookup(pa, k);
            lemma_pairs_map_lookup(pb, k);
            let x = choose|x: int| 0 <= x < pa.len() && #[trigger] pa[x].0 == k;
            assert(last_value(pb, pa[x].0) is Some);
        }
        assert forall|k: Seq<u8>| #[trigger] pairs_map(pb).dom().contains(k) implies pairs_map(pa).dom().contains(k) by {
            lemma_pairs_map_lookup(pa, k);
            lemma_pairs_map_lookup(pb, k);
            let x = choose|x: int| 0 <= x < pb.len() && #[trigger] pb[x].0 == k;
            assert(last_value(pa, pb[x].0) is Some);
        }
        assert(pairs_map(pa).dom() =~= pairs_map(pb).dom());
        assert(pairs_map(pa) =~= pairs_map(pb));
    }
    true
}

/// Whether some record says goodbye for `f`.
fn said_goodbye_in(records: &[DnsRecord], f: &[u8]) -> (r: bool)
    ensures
        r == said_goodbye(record_views(records@), f@),
{
    let ghost recs = record_views(records@);
    let mut said = false;
    let mut i: usize = 0;
    while i < records.len()
        invariant
            i <= records@.len(),
            recs == record_views(records@),
            said == said_goodbye(recs.subrange(0, i as int), f@),
        decreases records@.len() - i,
    {
        let rec = &records[i];
        if let DnsRData::Ptr(t) = &rec.data {
            if rec.ttl == 0 && bytes_eq(t.as_slice(), f) && split_fullname(t.as_slice()).is_some() {
                said = true;
            }
        }
        proof {
            assert(recs.subrange(0, i + 1).drop_last() == recs.subrange(0, i as int));
            assert(recs[i as int] == rec.view_tuple());
        }
        i = i + 1;
    }
    proof {
        assert(recs.subrange(0, recs.len() as int) == recs);
    }
    said
}

/// The TTL of the last PTR record, not a goodbye, that points at `f`.
fn find_ptr_ttl(records: &[DnsRecord], f: &[u8]) -> (r: Option<u32>)
    ensures
        r == ptr_ttl(record_views(records@), f@),
{
    let ghost recs = record_views(records@);
    let splits = split_fullname(f).is_some();
    let mut found: Option<u32> = None;
    let mut i: usize = 0;
    while i < records.len()
        invariant
            i <= records@.len(),
            recs == record_views(records@),
            splits == (split_fullname_spec(f@) is Some),
            found == ptr_ttl(recs.subrange(0, i as int), f@),
        decreases records@.len() - i,
    {
        let rec = &records[i];
        if let DnsRData::Ptr(t) = &rec.data {
            if rec.ttl != 0 && splits && bytes_eq(t.as_slice(), f) {
                found = Some(rec.ttl);
            }
        }
        proof {
            assert(recs.subrange(0, i + 1).drop_last() == recs.subrange(0, i as int));
            assert(recs[i as int] == rec.view_tuple());
        }
        i = i + 1;
    }
    proof {
        assert(recs.subrange(0, recs.len() as int) == recs);
    }
    found
}

/// Target, port and TTL of the last SRV record of `f`.
fn find_srv(records: &[DnsRecord], f: &[u8]) -> (r: Option<(Vec<u8>, u16, u32)>)
    ensures
        match srv_of(record_views(records@), f@) {
            None => r is None,
            Some((t, p, ttl)) => r matches Some((a, b, c)) && a@ == t && b == p && c == ttl,
        },
{
    let ghost recs = record_views(records@);
    let mut found: Option<(Vec<u8>, u16, u32)> = None;
    let mut i: usize = 0;
    while i < records.len()
        invariant
            i <= records@.len(),
            recs == record_views(records@),
            match srv_of(recs.subrange(0, i as int), f@) {
                None => found is None,
                Some((t, p, ttl)) => found matches Some((a, b, c)) && a@ == t && b == p && c == ttl,
            },
        decreases records@.len() - i,
    {
        let rec = &records[i];
        if let DnsRData::Srv { target, port } = &rec.data {
            if bytes_eq(rec.name.as_slice(), f) {
                found = Some((copy_bytes(target.as_slice()), *port, rec.ttl));
            }
        }
        proof {
            assert(recs.subrange(0, i + 1).drop_last() == recs.subrange(0, i as int));
            assert(recs[i as int] == rec.view_tuple());
        }
        i = i + 1;
    }
    proof {
        assert(recs.subrange(0, recs.len() as int) == recs);
    }
    found
}

/// Pairs and TTL of the last TXT record of `f`.
fn find_txt(records: &[DnsRecord], f: &[u8]) -> (r: Option<(Vec<(Vec<u8>, Vec<u8>)>, u32)>)
    ensures
        match txt_of(record_views(records@), f@) {
            None => r is None,
            Some((ps, ttl)) => r matches Some((a, c)) && pair_views(a@) == ps && c == ttl,
        },
{
    let ghost recs = record_views(records@);
    let mut found: Option<(Vec<(Vec<u8>, Vec<u8>)>, u32)> = None;
    let mut i: usize = 0;
    while i < records.len()
        invariant
            i <= records@.len(),
            recs == record_views(records@),
            match txt_of(recs.subrange(0, i as int), f@) {
                None => found is None,
                Some((ps, ttl)) => found matches Some((a, c)) && pair_views(a@) == ps && c == ttl,
            },
        decreases records@.len() - i,
    {
        let rec = &records[i];
        if let DnsRData::Txt(pairs) = &rec.data {
            if bytes_eq(rec.name.as_slice(), f) {
                found = Some((copy_pairs(pairs), rec.ttl));
            }
        }
        proof {
            assert(recs.subrange(0, i + 1).drop_last() == recs.subrange(0, i as int));
            assert(recs[i as int] == rec.view_tuple());
        }
        i = i + 1;
    }
    proof {
        assert(recs.subrange(0, recs.len() as int) == recs);
    }
    found
}

/// The addresses of the host with key `key`, in record order, and their smallest TTL.
fn collect_host(records: &[DnsRecord], key: &[u8]) -> (r: (Vec<HostAddr>, Option<u32>))
    ensures
        r.0@.map_values(|a: HostAddr| addr_view(a)) == host_ips(record_views(records@), key@),
        r.1 == host_ttl(record_views(records@), key@),
{
    let ghost recs = record_views(records@);
    let mut ips: Vec<HostAddr> = Vec::new();
    let mut ttl: Option<u32> = None;
    let mut i: usize = 0;
    while i < records.len()
        invariant
            i <= records@.len(),
            recs == record_views(records@),
            ips@.map_values(|a: HostAddr| addr_view(a)) == host_ips(recs.subrange(0, i as int), key@),
            ttl == host_ttl(recs.subrange(0, i as int), key@),
        decreases records@.len() - i,
    {
        let rec = &records[i];
        let ghost before = ips@;
        let addr: Option<HostAddr> = match &rec.data {
            DnsRData::A(o) => Some(HostAddr::V4(*o)),
            DnsRData::Aaaa(o) => Some(HostAddr::V6(*o)),
            _ => None,
        };
        if let Some(a) = addr {
            let k = dns_name_key(rec.name.as_slice());
            if bytes_eq(k.as_slice(), key) {
                ips.push(a);
                ttl = match ttl {
                    Some(x) => Some(if x <= rec.ttl { x } else { rec.ttl }),
                    None => Some(rec.ttl),
                };
                proof {
                    assert(ips@ == before.push(a));
                    assert(ips@.map_values(|a: HostAddr| addr_view(a)) =~= before.map_values(|a: HostAddr| addr_view(a)).push(addr_view(a)));
                }
            }
        }
        proof {
            assert(recs.subrange(0, i + 1).drop_last() == recs.subrange(0, i as int));
            assert(recs[i as int] == rec.view_tuple());
        }
        i = i + 1;
    }
    proof {
        assert(recs.subrange(0, recs.len() as int) == recs);
    }
    (ips, ttl)
}

/// Index of the observed instance named `f`, the last one when there are several.
fn find_observed(observed: &[ServiceMeta], f: &[u8]) -> (r: Option<usize>)
    ensures
        match observed_of(observed_views(observed@), f@) {
            None => r is None,
            Some(m) => r matches Some(j) && j < observed@.len() && observed@[j as int]@ == m,
        },
{
    let ghost obs = observed_views(observed@);
    let mut found: Option<usize> = None;
    let mut i: usize = 0;
    while i < observed.len()
        invariant
            i <= observed@.len(),
            obs == observed_views(observed@),
            match observed_of(obs.subrange(0, i as int), f@) {
                None => found is None,
                Some(m) => found matches Some(j) && j < i && observed@[j as int]@ == m,
            },
        decreases observed@.len() - i,
    {
        if bytes_eq(observed[i].fullname.as_slice(), f) {
            found = Some(i);
        }
        proof {
            assert(obs.subrange(0, i + 1).drop_last() == obs.subrange(0, i as int));
            assert(obs[i as int] == observed@[i as int]@);
        }
        i = i + 1;
    }
    proof {
        assert(obs.subrange(0, obs.len() as int) == obs);
    }
    found
}

/// A copy of the addresses.
fn copy_addrs(a: &Vec<HostAddr>) -> (r: Vec<HostAddr>)
    ensures
        r@ == a@,
{
    let mut out: Vec<HostAddr> = Vec::new();
    let mut i: usize = 0;
    while i < a.len()
        invariant
            i <= a@.len(),
            out@ == a@.subrange(0, i as int),
        decreases a@.len() - i,
    {
        out.push(a[i]);
        i = i + 1;
    }
    out
}

/// The smaller of two optional TTLs, or the one that is there.
fn min_opt(a: Option<u32>, b: Option<u32>) -> (r: Option<u32>)
    ensures
        r == min_ttl(a, b),
{
    match (a, b) {
        (Some(x), Some(y)) => Some(if x <= y { x } else { y }),
        (Some(x), None) => Some(x),
        (None, y) => y,
    }
}

/// Whether two descriptions of an instance say the same.
fn meta_same(a: &ServiceMeta, b: &ServiceMeta) -> (r: bool)
    ensures
        r == same_meta(a@, b@),
{
    bytes_eq(a.hostname.as_slice(), b.hostname.as_slice()) && a.port == b.port && addrs_eq(&a.ips, &b.ips) && txt_same(
        &a.txt,
        &b.txt,
    ) && bytes_eq(a.service_type.as_slice(), b.service_type.as_slice()) && bytes_eq(
        a.instance_name.as_slice(),
        b.instance_name.as_slice(),
    ) && bytes_eq(a.fullname.as_slice(), b.fullname.as_slice())
}

/// A service instance that the records resolve: what is now known of it, how long that
/// holds, and whether it differs from what was known.
pub struct ServiceUpdate {
    pub meta: ServiceMeta,
    pub ttl: u32,
    pub changed: bool,
}

/// What the records resolve the instance `f` to.
fn resolve_one(records: &[DnsRecord], observed: &[ServiceMeta], f: &[u8]) -> (r: Option<ServiceUpdate>)
    ensures
        match resolution(record_views(records@), observed_views(observed@), f@) {
            None => r is None,
            Some((m, ttl, changed)) => r matches Some(u) && u.meta@ == m && u.ttl == ttl && u.changed == changed,
        },
{
    let ghost recs = record_views(records@);
    let ghost obs = observed_views(observed@);
    let (inst, st) = match split_fullname(f) {
        None => return None,
        Some(p) => p,
    };
    let gone = said_goodbye_in(records, f);
    let old_idx: Option<usize> = if gone {
        None
    } else {
        find_observed(observed, f)
    };
    proof {
        match old_of(recs, obs, f@) {
            None => assert(old_idx is None),
            Some(o) => assert(old_idx matches Some(j) && j < observed@.len() && observed@[j as int]@ == o),
        }
    }
    let srv = find_srv(records, f);
    let txt = find_txt(records, f);
    let hostname: Vec<u8> = match &srv {
        Some((t, _, _)) => copy_bytes(t.as_slice()),
        None => match old_idx {
            Some(j) => copy_bytes(observed[j].hostname.as_slice()),
            None => Vec::new(),
        },
    };
    let port: u16 = match &srv {
        Some((_, p, _)) => *p,
        None => match old_idx {
            Some(j) => observed[j].port,
            None => 0,
        },
    };
    let pairs = match &txt {
        Some((ps, _)) => copy_pairs(ps),
        None => match old_idx {
            Some(j) => copy_pairs(&observed[j].txt),
            None => Vec::new(),
        },
    };
    let key = dns_name_key(hostname.as_slice());
    let (host_addrs, host_t) = collect_host(records, key.as_slice());
    let ips = if host_t.is_some() {
        host_addrs
    } else {
        match old_idx {
            Some(j) => copy_addrs(&observed[j].ips),
            None => Vec::new(),
        }
    };
    if port == 0 || hostname.len() == 0 {
        return None;
    }
    let ptr_t = find_ptr_ttl(records, f);
    let srv_t: Option<u32> = match &srv {
        Some((_, _, t)) => Some(*t),
        None => None,
    };
    let txt_t: Option<u32> = match &txt {
        Some((_, t)) => Some(*t),
        None => None,
    };
    let ttl: u32 = match min_opt(min_opt(min_opt(ptr_t, srv_t), txt_t), host_t) {
        Some(x) => x,
        None => 120,
    };
    let meta = ServiceMeta {
        hostname,
        port,
        ips,
        txt: pairs,
        service_type: st,
        instance_name: inst,
        fullname: copy_bytes(f),
    };
    let changed = match old_idx {
        None => true,
        Some(j) => !meta_same(&observed[j], &meta),
    };
    proof {
        let (m, t, c) = resolution(recs, obs, f@).unwrap();
        assert(meta@.ips == m.ips);
        assert(meta@.txt == m.txt);
        assert(meta@ == m);
    }
    Some(ServiceUpdate { meta, ttl, changed })
}

/// Whether the record names `f`: a PTR to it that is not a goodbye, or its SRV or TXT.
pub open spec fn record_names(r: RecordView, f: Seq<u8>) -> bool {
    ||| (r.2 == RDataView::Ptr(f) && r.1 != 0 && split_fullname_spec(f) is Some)
    ||| (r.2 is Srv && r.0 == f)
    ||| (r.2 is Txt && r.0 == f)
}

/// Whether some record names `f`.
pub open spec fn records_name(recs: Seq<RecordView>, f: Seq<u8>) -> bool {
    ptr_ttl(recs, f) is Some || srv_of(recs, f) is Some || txt_of(recs, f) is Some
}

proof fn lemma_records_name_step(recs: Seq<RecordView>, f: Seq<u8>)
    requires
        recs.len() > 0,
    ensures
        records_name(recs, f) == (records_name(recs.drop_last(), f) || record_names(recs.last(), f)),
{
}

/// The names in `names`, as byte strings.
pub open spec fn name_views(names: Seq<Vec<u8>>) -> Seq<Seq<u8>> {
    names.map_values(|v: Vec<u8>| v@)
}

/// Adds `name` to `names` unless it is there.
fn push_unique(names: &mut Vec<Vec<u8>>, name: &[u8])
    ensures
        name_views(old(names)@).contains(name@) ==> name_views(final(names)@) == name_views(old(names)@),
        !name_views(old(names)@).contains(name@) ==> name_views(final(names)@) == name_views(old(names)@).push(name@),
{
    let ghost before = name_views(names@);
    let mut i: usize = 0;
    while i < names.len()
        invariant
            i <= names@.len(),
            before == name_views(names@),
            forall|k: int| 0 <= k < i ==> before[k] != name@,
        decreases names@.len() - i,
    {
        if bytes_eq(names[i].as_slice(), name) {
            proof {
                assert(before[i as int] == name@);
            }
            return;
        }
        i = i + 1;
    }
    let ghost old_names = names@;
    names.push(copy_bytes(name));
    proof {
        assert(!before.contains(name@));
        assert(name_views(names@) =~= before.push(name@)) by {
            assert(names@ == old_names.push(names@.last()));
            assert forall|k: int| 0 <= k < before.len() implies name_views(names@)[k] == before[k] by {
                assert(names@[k] == old_names[k]);
            }
        }
    }
}

/// Pushing `x` adds it and nothing else to what a sequence holds, and keeps it free of
/// duplicates when it was not there.
proof fn lemma_push_contains(s: Seq<Seq<u8>>, x: Seq<u8>)
    ensures
        forall|f: Seq<u8>| #[trigger] s.push(x).contains(f) == (s.contains(f) || x == f),
        s.no_duplicates() && !s.contains(x) ==> s.push(x).no_duplicates(),
{
    assert forall|f: Seq<u8>| #[trigger] s.push(x).contains(f) == (s.contains(f) || x == f) by {
        if s.contains(f) {
            let i = choose|i: int| 0 <= i < s.len() && s[i] == f;
            assert(s.push(x)[i] == f);
        }
        if x == f {
            assert(s.push(x)[s.len() as int] == f);
        }
        if s.push(x).contains(f) {
            let i = choose|i: int| 0 <= i < s.push(x).len() && s.push(x)[i] == f;
            if i < s.len() {
                assert(s[i] == f);
            }
        }
    }
    if s.no_duplicates() && !s.contains(x) {
        assert forall|i: int, j: int| 0 <= i < s.push(x).len() && 0 <= j < s.push(x).len() && i != j implies s.push(x)[i]
            != s.push(x)[j] by {
            if i < s.len() && j < s.len() {
            } else if i < s.len() {
                assert(s.push(x)[i] == s[i]);
                assert(s.push(x)[j] == x);
                assert(s.contains(s[i]));
            } else {
                assert(s.push(x)[j] == s[j]);
                assert(s.push(x)[i] == x);
                assert(s.contains(s[j]));
            }
        }
    }
}

/// Whether what was known of `f`, once the goodbyes are applied, has a host whose address
/// records are among the records.
pub open spec fn host_readdressed(recs: Seq<RecordView>, obs: Seq<MetaView>, f: Seq<u8>) -> bool {
    old_of(recs, obs, f) matches Some(o) && host_ttl(recs, name_key(o.hostname)) is Some
}

/// What a batch of records does: the removals they announce, in record order, and the
/// instances they resolve, in no particular order.
pub struct ResponseOutcome {
    pub removed: Vec<(Vec<u8>, Vec<u8>)>,
    pub updates: Vec<ServiceUpdate>,
}

/// The names the records name, without duplicates, and the goodbyes they say.
fn scan_records(records: &[DnsRecord]) -> (r: (Vec<(Vec<u8>, Vec<u8>)>, Vec<Vec<u8>>))
    ensures
        pair_views(r.0@) == goodbyes(record_views(records@)),
        name_views(r.1@).no_duplicates(),
        forall|f: Seq<u8>| #[trigger] name_views(r.1@).contains(f) == records_name(record_views(records@), f),
{
    let ghost recs = record_views(records@);
    let mut removed: Vec<(Vec<u8>, Vec<u8>)> = Vec::new();
    let mut cands: Vec<Vec<u8>> = Vec::new();
    let mut i: usize = 0;
    while i < records.len()
        invariant
            i <= records@.len(),
            recs == record_views(records@),
            pair_views(removed@) == goodbyes(recs.subrange(0, i as int)),
            name_views(cands@).no_duplicates(),
            forall|f: Seq<u8>| #[trigger] name_views(cands@).contains(f) == records_name(recs.subrange(0, i as int), f),
        decreases records@.len() - i,
    {
        let rec = &records[i];
        let ghost before = removed@;
        let ghost cands_before = name_views(cands@);
        let ghost mut named: Option<Seq<u8>> = None;
        match &rec.data {
            DnsRData::Ptr(t) => {
                match split_fullname(t.as_slice()) {
                    Some((_, st)) => {
                        if rec.ttl == 0 {
                            removed.push((st, copy_bytes(t.as_slice())));
                            proof {
                                assert(pair_views(removed@) =~= pair_views(before).push((st@, t@))) by {
                                    assert forall|k: int| 0 <= k < before.len() implies pair_views(removed@)[k]
                                        == pair_views(before)[k] by {
                                        assert(removed@[k] == before[k]);
                                    }
                                }
                            }
                        } else {
                            push_unique(&mut cands, t.as_slice());
                            proof {
                                named = Some(t@);
                            }
                        }
                    },
                    None => {},
                }
            },
            DnsRData::Srv { .. } => {
                push_unique(&mut cands, rec.name.as_slice());
                proof {
                    named = Some(rec.name@);
                }
            },
            DnsRData::Txt(_) => {
                push_unique(&mut cands, rec.name.as_slice());
                proof {
                    named = Some(rec.name@);
                }
            },
            _ => {},
        }
        proof {
            let p = recs.subrange(0, i + 1);
            assert(p.drop_last() == recs.subrange(0, i as int));
            assert(recs[i as int] == rec.view_tuple());
            match named {
                Some(x) => {
                    lemma_push_contains(cands_before, x);
                },
                None => {
                    assert(name_views(cands@) == cands_before);
                },
            }
            assert forall|f: Seq<u8>| #[trigger] name_views(cands@).contains(f) == records_name(p, f) by {
                lemma_records_name_step(p, f);
                assert(record_names(p.last(), f) == (named == Some(f)));
            }
        }
        i = i + 1;
    }
    proof {
        assert(recs.subrange(0, recs.len() as int) == recs);
    }
    (removed, cands)
}

/// Adds to `cands` the observed instances whose host the records readdress.
fn add_readdressed(records: &[DnsRecord], observed: &[ServiceMeta], cands: &mut Vec<Vec<u8>>)
    requires
        name_views(old(cands)@).no_duplicates(),
    ensures
        name_views(final(cands)@).no_duplicates(),
        forall|f: Seq<u8>|
            #[trigger] name_views(final(cands)@).contains(f) == (name_views(old(cands)@).contains(f) || host_readdressed(
                record_views(records@),
                observed_views(observed@),
                f,
            )),
{
    let ghost recs = record_views(records@);
    let ghost obs = observed_views(observed@);
    let ghost start = name_views(cands@);
    let mut j: usize = 0;
    while j < observed.len()
        invariant
            j <= observed@.len(),
            recs == record_views(records@),
            obs == observed_views(observed@),
            name_views(cands@).no_duplicates(),
            forall|f: Seq<u8>|
                #[trigger] name_views(cands@).contains(f) == (start.contains(f) || (host_readdressed(recs, obs, f)
                    && exists|x: int| 0 <= x < j && obs[x].fullname == f)),
        decreases observed@.len() - j,
    {
        let f = observed[j].fullname.as_slice();
        let ghost cands_before = name_views(cands@);
        let mut add = false;
        if !said_goodbye_in(records, f) {
            if let Some(idx) = find_observed(observed, f) {
                let key = dns_name_key(observed[idx].hostname.as_slice());
                let (_, t) = collect_host(records, key.as_slice());
                add = t.is_some();
            }
        }
        if add {
            push_unique(cands, f);
        }
        proof {
            assert(obs[j as int] == observed@[j as int]@);
            assert(add == host_readdressed(recs, obs, f@));
            if add {
                lemma_push_contains(cands_before, f@);
            } else {
                assert(name_views(cands@) == cands_before);
            }
            assert forall|g: Seq<u8>|
                #[trigger] name_views(cands@).contains(g) == (start.contains(g) || (host_readdressed(recs, obs, g)
                    && exists|x: int| 0 <= x < j + 1 && obs[x].fullname == g)) by {
                if g == f@ {
                    assert(obs[j as int].fullname == g);
                }
                if exists|x: int| 0 <= x < j + 1 && obs[x].fullname == g {
                    let x = choose|x: int| 0 <= x < j + 1 && obs[x].fullname == g;
                    if x < j {
                        assert(exists|y: int| 0 <= y < j && obs[y].fullname == g);
                    } else {
                        assert(g == f@);
                    }
                }
            }
        }
        j = j + 1;
    }
    proof {
        assert forall|f: Seq<u8>|
            #[trigger] name_views(cands@).contains(f) == (start.contains(f) || host_readdressed(recs, obs, f)) by {
            if host_readdressed(recs, obs, f) {
                lemma_observed_of_is_observed(obs, f);
            }
        }
    }
}

/// The decisions taken on a batch of mDNS response records, given the instances observed
/// so far: the goodbyes (PTR records with TTL 0) remove their instance, and every instance
/// the records concern is resolved anew.
pub fn handle_responses(records: &[DnsRecord], observed: &[ServiceMeta]) -> (r: ResponseOutcome)
    requires
        fullnames_distinct(observed_views(observed@)),
    ensures
        pair_views(r.removed@) == goodbyes(record_views(records@)),
        forall|k: int|
            0 <= k < r.updates@.len() ==> touched(
                record_views(records@),
                observed_views(observed@),
                #[trigger] r.updates@[k].meta@.fullname,
            ) && resolution(record_views(records@), observed_views(observed@), r.updates@[k].meta@.fullname)
                == Some((r.updates@[k].meta@, r.updates@[k].ttl, r.updates@[k].changed)),
        forall|f: Seq<u8>|
            touched(record_views(records@), observed_views(observed@), f) && #[trigger] resolution(
                record_views(records@),
                observed_views(observed@),
                f,
            ) is Some ==> exists|k: int| 0 <= k < r.updates@.len() && r.updates@[k].meta@.fullname == f,
        forall|k1: int, k2: int|
            0 <= k1 < k2 < r.updates@.len() ==> r.updates@[k1].meta@.fullname != r.updates@[k2].meta@.fullname,
{
    let ghost recs = record_views(records@);
    let ghost obs = observed_views(observed@);
    let (removed, mut cands) = scan_records(records);
    add_readdressed(records, observed, &mut cands);
    let ghost cv = name_views(cands@);
    assert forall|f: Seq<u8>| #[trigger] cv.contains(f) == touched(recs, obs, f) by {}
    let mut updates: Vec<ServiceUpdate> = Vec::new();
    let mut c: usize = 0;
    while c < cands.len()
        invariant
            c <= cands@.len(),
            recs == record_views(records@),
            obs == observed_views(observed@),
            cv == name_views(cands@),
            cv.no_duplicates(),
            forall|k: int|
                0 <= k < updates@.len() ==> exists|m: int| 0 <= m < c && cv[m] == #[trigger] updates@[k].meta@.fullname,
            forall|k: int|
                0 <= k < updates@.len() ==> resolution(recs, obs, #[trigger] updates@[k].meta@.fullname) == Some(
                    (updates@[k].meta@, updates@[k].ttl, updates@[k].changed),
                ),
            forall|m: int|
                0 <= m < c && resolution(recs, obs, #[trigger] cv[m]) is Some ==> exists|k: int|
                    0 <= k < updates@.len() && updates@[k].meta@.fullname == cv[m],
            forall|k1: int, k2: int|
                0 <= k1 < k2 < updates@.len() ==> updates@[k1].meta@.fullname != updates@[k2].meta@.fullname,
        decreases cands@.len() - c,
    {
        assert(cv[c as int] == cands@[c as int]@);
        let ghost before = updates@;
        match resolve_one(records, observed, cands[c].as_slice()) {
            Some(u) => {
                proof {
                    assert(u.meta@.fullname == cv[c as int]);
                    assert forall|k: int| 0 <= k < before.len() implies before[k].meta@.fullname != u.meta@.fullname by {
                        let m = choose|m: int| 0 <= m < c && cv[m] == #[trigger] before[k].meta@.fullname;
                        assert(cv[m] != cv[c as int]);
                    }
                }
                updates.push(u);
                proof {
                    assert(updates@ == before.push(u));
                    assert forall|k: int| 0 <= k < before.len() implies updates@[k] == before[k] by {}
                    assert(updates@[before.len() as int].meta@.fullname == cv[c as int]);
                    assert forall|m: int|
                        0 <= m < c + 1 && resolution(recs, obs, #[trigger] cv[m]) is Some implies exists|k: int|
                            0 <= k < updates@.len() && updates@[k].meta@.fullname == cv[m] by {
                        if m < c {
                            let k = choose|k: int| 0 <= k < before.len() && before[k].meta@.fullname == cv[m];
                            assert(updates@[k] == before[k]);
                        } else {
                            assert(updates@[before.len() as int].meta@.fullname == cv[m]);
                        }
                    }
                }
            },
            None => {},
        }
        c = c + 1;
    }
    proof {
        assert forall|k: int| 0 <= k < updates@.len() implies touched(recs, obs, #[trigger] updates@[k].meta@.fullname) by {
            let m = choose|m: int| 0 <= m < c && cv[m] == #[trigger] updates@[k].meta@.fullname;
            assert(cv.contains(cv[m]));
        }
        assert forall|f: Seq<u8>|
            touched(recs, obs, f) && #[trigger] resolution(recs, obs, f) is Some implies exists|k: int|
                0 <= k < updates@.len() && updates@[k].meta@.fullname == f by {
            assert(cv.contains(f));
            let m = choose|m: int| 0 <= m < cv.len() && cv[m] == f;
            assert(resolution(recs, obs, cv[m]) is Some);
        }
    }
    ResponseOutcome { removed, updates }
}

/// An instance that `observed_of` gives is one of the observed, under that name.
proof fn lemma_observed_of_is_observed(obs: Seq<MetaView>, f: Seq<u8>)
    requires
        observed_of(obs, f) is Some,
    ensures
        exists|x: int| 0 <= x < obs.len() && obs[x].fullname == f,
        observed_of(obs, f).unwrap().fullname == f,
    decreases obs.len(),
{
    if obs.last().fullname == f {
        assert(obs[obs.len() - 1].fullname == f);
    } else {
        lemma_observed_of_is_observed(obs.drop_last(), f);
        let x = choose|x: int| 0 <= x < obs.drop_last().len() && obs.drop_last()[x].fullname == f;
        assert(obs[x] == obs.drop_last()[x]);
    }
}

/// Records seen again change nothing: once what they resolve an instance to is what is
/// known of it, the same records resolve it to the same, with the same TTL, and report no
/// change (unless they also say goodbye to it).
pub proof fn lemma_resolution_settles(
    recs: Seq<RecordView>,
    obs: Seq<MetaView>,
    later: Seq<MetaView>,
    f: Seq<u8>,
    m: MetaView,
    ttl: u32,
    changed: bool,
)
    requires
        resolution(recs, obs, f) == Some((m, ttl, changed)),
        !said_goodbye(recs, f),
        observed_of(later, f) == Some(m),
    ensures
        resolution(recs, later, f) == Some((m, ttl, false)),
{
    assert(pairs_map(m.txt) == pairs_map(m.txt));
    assert(same_meta(m, m));
}

/// What is reported of a resolved instance.
#[derive(Debug, Clone, Copy, PartialEq, Eq, Structural)]
pub enum UpdateAction {
    /// Nothing changed: nothing is reported.
    Nothing,
    /// The instance changed and has addresses: it is reported resolved.
    Resolved,
    /// The instance changed but no address of its host is known: the host is queried.
    QueryHost,
}

/// What to report of an update: nothing when it changes nothing, a query for the host
/// when it has no address, else the resolved instance.
pub open spec fn update_action_spec(changed: bool, ips: Seq<RDataView>) -> UpdateAction {
    if !changed {
        UpdateAction::Nothing
    } else if ips.len() == 0 {
        UpdateAction::QueryHost
    } else {
        UpdateAction::Resolved
    }
}

impl ServiceUpdate {
    /// What to report of this update.
    pub fn action(&self) -> (r: UpdateAction)
        ensures
            r == update_action_spec(self.changed, self.meta@.ips),
    {
        if !self.changed {
            UpdateAction::Nothing
        } else if self.meta.ips.len() == 0 {
            UpdateAction::QueryHost
        } else {
            UpdateAction::Resolved
        }
    }
}

/// An update that changes an instance reports it resolved exactly when the instance has at
/// least one address, and otherwise asks for the addresses of its host; an update that
/// changes nothing reports nothing.
pub proof fn lemma_update_action(changed: bool, ips: Seq<RDataView>)
    ensures
        update_action_spec(changed, ips) == UpdateAction::Nothing <==> !changed,
        update_action_spec(changed, ips) == UpdateAction::QueryHost <==> changed && ips.len() == 0,
        update_action_spec(changed, ips) == UpdateAction::Resolved <==> changed && ips.len() > 0,
{
}

} // verus!
