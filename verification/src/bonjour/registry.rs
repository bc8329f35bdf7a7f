use vstd::prelude::*;
use vstd::string::StringSliceAdditionalSpecFns;
use super::dns_parse::DnsQuestion;
use super::packet::{lex_less, lex_lt, lex_lt_from, HostAddr};
use super::resolve::{dns_name_key, name_key};

verus! {

/// The IPv4 addresses in strictly increasing order (octet by octet).
pub open spec fn strictly_sorted_v4(s: Seq<[u8; 4]>) -> bool {
    forall|i: int, j: int| 0 <= i < j < s.len() ==> lex_lt(#[trigger] s[i]@, #[trigger] s[j]@)
}

proof fn lemma_lex_total_from(a: Seq<u8>, b: Seq<u8>, i: int)
    requires
        0 <= i <= a.len(),
        a.len() == b.len(),
        a.subrange(0, i) == b.subrange(0, i),
    ensures
        lex_lt_from(a, b, i) || lex_lt_from(b, a, i) || a == b,
    decreases a.len() - i,
{
    if i == a.len() {
        assert(a == a.subrange(0, i));
        assert(b == b.subrange(0, i));
    } else if a[i] == b[i] {
        assert(a.subrange(0, i + 1) == a.subrange(0, i).push(a[i]));
        assert(b.subrange(0, i + 1) == b.subrange(0, i).push(b[i]));
        lemma_lex_total_from(a, b, i + 1);
    }
}

proof fn lemma_lex_transitive(a: Seq<u8>, b: Seq<u8>, c: Seq<u8>)
    requires
        lex_lt(a, b),
        lex_lt(b, c),
    ensures
        lex_lt(a, c),
{
    super::packet::lemma_lex_strict_order(a, b, c);
}

/// Two addresses are equal when their octets are.
fn v4_eq(a: &[u8; 4], b: &[u8; 4]) -> (r: bool)
    ensures
        r == (*a == *b),
{
    let r = a[0] == b[0] && a[1] == b[1] && a[2] == b[2] && a[3] == b[3];
    proof {
        if r {
            assert(*a =~= *b);
        }
    }
    r
}

/// The addresses sorted and without repeats, as the interface's address set is kept.
pub fn normalize_v4(v4: &Vec<[u8; 4]>) -> (r: Vec<[u8; 4]>)
    ensures
        normalized_v4(r@, v4@),
{
    let mut out: Vec<[u8; 4]> = Vec::new();
    let mut k: usize = 0;
    while k < v4.len()
        invariant
            k <= v4@.len(),
            strictly_sorted_v4(out@),
            forall|a: [u8; 4]| #[trigger] out@.contains(a) == v4@.subrange(0, k as int).contains(a),
        decreases v4@.len() - k,
    {
        let a = v4[k];
        let mut p: usize = 0;
        while p < out.len() && lex_less(out[p].as_slice(), a.as_slice())
            invariant
                p <= out@.len(),
                forall|i: int| 0 <= i < p ==> lex_lt(#[trigger] out@[i]@, a@),
            decreases out@.len() - p,
        {
            p = p + 1;
        }
        let ghost before = out@;
        let present = p < out.len() && v4_eq(&out[p], &a);
        if !present {
            out.insert(p, a);
            proof {
                assert(out@ == before.insert(p as int, a));
                assert forall|i: int| p <= i < before.len() implies lex_lt(a@, #[trigger] before[i]@) by {
                    assert(before[p as int]@.subrange(0, 0) =~= a@.subrange(0, 0));
                    lemma_lex_total_from(before[p as int]@, a@, 0);
                    assert(before[p as int] != a);
                    if before[p as int]@ == a@ {
                        assert(before[p as int] =~= a);
                    }
                    if i > p {
                        lemma_lex_transitive(a@, before[p as int]@, before[i]@);
                    }
                }
                assert forall|i: int, j: int| 0 <= i < j < out@.len() implies lex_lt(#[trigger] out@[i]@, #[trigger] out@[j]@) by {
                    if j < p {
                        assert(out@[i] == before[i] && out@[j] == before[j]);
                    } else if j == p {
                        assert(out@[i] == before[i]);
                    } else if i < p {
                        assert(out@[i] == before[i] && out@[j] == before[j - 1]);
                        lemma_lex_transitive(before[i]@, a@, before[j - 1]@);
                    } else if i == p {
                        assert(out@[j] == before[j - 1]);
                    } else {
                        assert(out@[i] == before[i - 1] && out@[j] == before[j - 1]);
                    }
                }
            }
        }
        proof {
            let pre = v4@.subrange(0, k as int);
            let next = v4@.subrange(0, k + 1);
            assert(next == pre.push(a));
            assert forall|x: [u8; 4]| #[trigger] out@.contains(x) == next.contains(x) by {
                if next.contains(x) {
                    let i = choose|i: int| 0 <= i < next.len() && next[i] == x;
                    if i < pre.len() {
                        assert(pre[i] == x);
                        assert(pre.contains(x));
                        assert(before.contains(x));
                        let j = choose|j: int| 0 <= j < before.len() && before[j] == x;
                        if !present {
                            if j < p {
                                assert(out@[j] == x);
                            } else {
                                assert(out@[j + 1] == x);
                            }
                        }
                    } else {
                        if present {
                            assert(out@[p as int] == x);
                        } else {
                            assert(out@[p as int] == x);
                        }
                    }
                }
                if out@.contains(x) {
                    let i = choose|i: int| 0 <= i < out@.len() && out@[i] == x;
                    if present {
                        assert(before.contains(x));
                        assert(pre.contains(x));
                        let j = choose|j: int| 0 <= j < pre.len() && pre[j] == x;
                        assert(next[j] == x);
                    } else if i == p {
                        assert(next[pre.len() as int] == x);
                    } else {
                        if i < p {
                            assert(before[i] == x);
                        } else {
                            assert(before[i - 1] == x);
                        }
                        assert(before.contains(x));
                        assert(pre.contains(x));
                        let j = choose|j: int| 0 <= j < pre.len() && pre[j] == x;
                        assert(next[j] == x);
                    }
                }
            }
        }
        k = k + 1;
    }
    proof {
        assert(v4@.subrange(0, v4@.len() as int) == v4@);
    }
    out
}

/// The addresses of an interface: its IPv4 addresses and its IPv6 link-local address.
#[derive(Debug, Clone)]
pub struct IfaceIps {
    pub v4: Vec<[u8; 4]>,
    pub v6: Option<[u8; 16]>,
}

/// The addresses an instance with no address of its own is announced with: the
/// interface's IPv4 addresses in order, then its IPv6 address.
pub open spec fn auto_addrs_spec(v4: Seq<[u8; 4]>, v6: Option<[u8; 16]>) -> Seq<HostAddr> {
    let fours = Seq::new(v4.len(), |i: int| HostAddr::V4(v4[i]));
    match v6 {
        Some(a) => fours.push(HostAddr::V6(a)),
        None => fours,
    }
}

impl IfaceIps {
    /// The addresses an instance with no address of its own is announced with.
    pub fn auto_addrs(&self) -> (r: Vec<HostAddr>)
        ensures
            r@ == auto_addrs_spec(self.v4@, self.v6),
    {
        let mut out: Vec<HostAddr> = Vec::new();
        let mut i: usize = 0;
        while i < self.v4.len()
            invariant
                i <= self.v4@.len(),
                out@ == Seq::new(i as nat, |k: int| HostAddr::V4(self.v4@[k])),
            decreases self.v4@.len() - i,
        {
            out.push(HostAddr::V4(self.v4[i]));
            i = i + 1;
            proof {
                assert(out@ =~= Seq::new(i as nat, |k: int| HostAddr::V4(self.v4@[k])));
            }
        }
        if let Some(a) = self.v6 {
            out.push(HostAddr::V6(a));
        }
        proof {
            assert(Seq::new(self.v4@.len(), |k: int| HostAddr::V4(self.v4@[k])) =~= Seq::new(
                i as nat,
                |k: int| HostAddr::V4(self.v4@[k]),
            ));
        }
        out
    }

    /// Whether two address sets are the same.
    pub fn same_as(&self, other: &IfaceIps) -> (r: bool)
        ensures
            r == (self.v4@ == other.v4@ && self.v6 == other.v6),
    {
        if self.v4.len() != other.v4.len() {
            return false;
        }
        let mut i: usize = 0;
        while i < self.v4.len()
            invariant
                i <= self.v4@.len(),
                self.v4@.len() == other.v4@.len(),
                forall|k: int| 0 <= k < i ==> self.v4@[k] == other.v4@[k],
            decreases self.v4@.len() - i,
        {
            if !v4_eq(&self.v4[i], &other.v4[i]) {
                proof {
                    assert(self.v4@[i as int] != other.v4@[i as int]);
                    if self.v4@ == other.v4@ {
                        assert(self.v4@[i as int] == other.v4@[i as int]);
                    }
                }
                return false;
            }
            i = i + 1;
        }
        proof {
            assert(self.v4@ =~= other.v4@);
        }
        match (&self.v6, &other.v6) {
            (Some(a), Some(b)) => {
                let mut j: usize = 0;
                while j < 16
                    invariant
                        j <= 16,
                        self.v6 == Some(*a),
                        other.v6 == Some(*b),
                        forall|k: int| 0 <= k < j ==> a@[k] == b@[k],
                    decreases 16 - j,
                {
                    if a[j] != b[j] {
                        proof {
                            if *a == *b {
                                assert(a@[j as int] == b@[j as int]);
                            }
                        }
                        return false;
                    }
                    j = j + 1;
                }
                proof {
                    assert(*a =~= *b);
                }
                true
            },
            (None, None) => true,
            _ => false,
        }
    }
}

/// The names a registered instance answers queries for: its service type, full name and
/// host name, in lower case, and the service list.
pub open spec fn registration_names_spec(service_type: Seq<u8>, fullname: Seq<u8>, hostname: Seq<u8>) -> Seq<Seq<u8>> {
    seq![name_key(service_type), name_key(fullname), name_key(hostname), "_services._dns-sd._udp.local.".spec_bytes()]
}

/// The names a registered instance answers queries for.
pub fn registration_names(service_type: &str, fullname: &str, hostname: &str) -> (r: Vec<Vec<u8>>)
    ensures
        r@.map_values(|v: Vec<u8>| v@) == registration_names_spec(
            service_type.spec_bytes(),
            fullname.spec_bytes(),
            hostname.spec_bytes(),
        ),
{
    let mut out: Vec<Vec<u8>> = Vec::new();
    out.push(dns_name_key(service_type.as_bytes()));
    out.push(dns_name_key(fullname.as_bytes()));
    out.push(dns_name_key(hostname.as_bytes()));
    let mut services: Vec<u8> = Vec::new();
    services.extend_from_slice("_services._dns-sd._udp.local.".as_bytes());
    out.push(services);
    proof {
        assert(services@ == "_services._dns-sd._udp.local.".spec_bytes());
        assert(out@.len() == 4);
        assert(out@.map_values(|v: Vec<u8>| v@) =~= registration_names_spec(
            service_type.spec_bytes(),
            fullname.spec_bytes(),
            hostname.spec_bytes(),
        ));
    }
    out
}

/// Whether a query asks for one of `names`: some question's name, in lower case, is among
/// them.
pub open spec fn asks_for(questions: Seq<DnsQuestion>, names: Seq<Seq<u8>>) -> bool {
    exists|i: int| 0 <= i < questions.len() && names.contains(name_key(#[trigger] questions[i].name@))
}

/// Whether `name` is among `names`.
fn contains_name(names: &Vec<Vec<u8>>, name: &[u8]) -> (r: bool)
    ensures
        r == names@.map_values(|v: Vec<u8>| v@).contains(name@),
{
    let ghost nv = names@.map_values(|v: Vec<u8>| v@);
    let mut i: usize = 0;
    while i < names.len()
        invariant
            i <= names@.len(),
            nv == names@.map_values(|v: Vec<u8>| v@),
            forall|k: int| 0 <= k < i ==> nv[k] != name@,
        decreases names@.len() - i,
    {
        if super::resolve::bytes_eq(names[i].as_slice(), name) {
            proof {
                assert(nv[i as int] == name@);
            }
            return true;
        }
        i = i + 1;
    }
    false
}

/// Whether a registered instance answers a query: some question asks for one of its names.
pub fn should_reply(questions: &[DnsQuestion], names: &Vec<Vec<u8>>) -> (r: bool)
    ensures
        r == asks_for(questions@, names@.map_values(|v: Vec<u8>| v@)),
{
    let ghost nv = names@.map_values(|v: Vec<u8>| v@);
    let mut i: usize = 0;
    while i < questions.len()
        invariant
            i <= questions@.len(),
            nv == names@.map_values(|v: Vec<u8>| v@),
            forall|k: int| 0 <= k < i ==> !nv.contains(name_key(#[trigger] questions@[k].name@)),
        decreases questions@.len() - i,
    {
        let key = dns_name_key(questions[i].name.as_slice());
        if contains_name(names, key.as_slice()) {
            proof {
                assert(nv.contains(name_key(questions@[i as int].name@)));
            }
            return true;
        }
        i = i + 1;
    }
    false
}

/// The addresses an instance is registered with: its own, or, when it has none, those of
/// the interface; and whether they follow the interface.
pub fn registration_addrs(ips: &Vec<HostAddr>, iface: &IfaceIps) -> (r: (Vec<HostAddr>, bool))
    ensures
        r.1 == (ips@.len() == 0),
        r.1 ==> r.0@ == auto_addrs_spec(iface.v4@, iface.v6),
        !r.1 ==> r.0@ == ips@,
{
    if ips.len() == 0 {
        (iface.auto_addrs(), true)
    } else {
        let mut out: Vec<HostAddr> = Vec::new();
        let mut i: usize = 0;
        while i < ips.len()
            invariant
                i <= ips@.len(),
                out@ == ips@.subrange(0, i as int),
            decreases ips@.len() - i,
        {
            out.push(ips[i]);
            i = i + 1;
        }
        (out, false)
    }
}

/// `n` is the reading `v4` sorted and without repeats.
pub open spec fn normalized_v4(n: Seq<[u8; 4]>, v4: Seq<[u8; 4]>) -> bool {
    strictly_sorted_v4(n) && forall|a: [u8; 4]| #[trigger] n.contains(a) == v4.contains(a)
}

/// The interface's address set after a new reading, when it differs from the one kept:
/// the IPv4 addresses sorted and without repeats, and the IPv6 address; `None` when the
/// kept set is that already.
pub fn reconcile_iface_ips(kept: &IfaceIps, v4: &Vec<[u8; 4]>, v6: Option<[u8; 16]>) -> (r: Option<IfaceIps>)
    ensures
        r matches Some(n) ==> normalized_v4(n.v4@, v4@) && n.v6 == v6,
        r is None <==> (normalized_v4(kept.v4@, v4@) && kept.v6 == v6),
{
    let fresh = IfaceIps { v4: normalize_v4(v4), v6 };
    if fresh.same_as(kept) {
        None
    } else {
        proof {
            if normalized_v4(kept.v4@, v4@) && kept.v6 == v6 {
                lemma_sorted_sets_equal(kept.v4@, fresh.v4@);
            }
        }
        Some(fresh)
    }
}

/// Two strictly sorted sequences with the same elements are the same.
proof fn lemma_sorted_sets_equal(a: Seq<[u8; 4]>, b: Seq<[u8; 4]>)
    requires
        strictly_sorted_v4(a),
        strictly_sorted_v4(b),
        forall|x: [u8; 4]| #[trigger] a.contains(x) == b.contains(x),
    ensures
        a == b,
    decreases a.len() + b.len(),
{
    if a.len() == 0 {
        if b.len() > 0 {
            assert(a.contains(b[0]) == b.contains(b[0]));
            assert(b.contains(b[0]));
        }
        assert(a =~= b);
    } else if b.len() == 0 {
        assert(a.contains(a[0]));
    } else {
        assert(a.contains(a[0]));
        assert(a.contains(b[0]) == b.contains(b[0]));
        assert(b.contains(b[0]));
        let i = choose|i: int| 0 <= i < b.len() && b[i] == a[0];
        let j = choose|j: int| 0 <= j < a.len() && a[j] == b[0];
        if a[0] != b[0] {
            assert(i > 0 && j > 0);
            assert(lex_lt(b[0]@, b[i]@));
            assert(lex_lt(a[0]@, a[j]@));
            lemma_lex_transitive(b[0]@, a[0]@, b[0]@);
            super::packet::lemma_lex_strict_order(b[0]@, b[0]@, b[0]@);
        }
        let a2 = a.drop_first();
        let b2 = b.drop_first();
        assert forall|x: [u8; 4]| #[trigger] a2.contains(x) == b2.contains(x) by {
            if a2.contains(x) {
                let k = choose|k: int| 0 <= k < a2.len() && a2[k] == x;
                assert(a[k + 1] == x);
                assert(lex_lt(a[0]@, a[k + 1]@));
                assert(a.contains(x));
                assert(b.contains(x));
                let m = choose|m: int| 0 <= m < b.len() && b[m] == x;
                if m == 0 {
                    super::packet::lemma_lex_strict_order(x@, x@, x@);
                }
                assert(b2[m - 1] == x);
            }
            if b2.contains(x) {
                let k = choose|k: int| 0 <= k < b2.len() && b2[k] == x;
                assert(b[k + 1] == x);
                assert(lex_lt(b[0]@, b[k + 1]@));
                assert(b.contains(x));
                assert(a.contains(x) == b.contains(x));
                let m = choose|m: int| 0 <= m < a.len() && a[m] == x;
                if m == 0 {
                    super::packet::lemma_lex_strict_order(x@, x@, x@);
                }
                assert(a2[m - 1] == x);
            }
        }
        assert forall|p: int, q: int| 0 <= p < q < a2.len() implies lex_lt(#[trigger] a2[p]@, #[trigger] a2[q]@) by {
            assert(a2[p] == a[p + 1] && a2[q] == a[q + 1]);
            assert(lex_lt(a[p + 1]@, a[q + 1]@));
        }
        assert forall|p: int, q: int| 0 <= p < q < b2.len() implies lex_lt(#[trigger] b2[p]@, #[trigger] b2[q]@) by {
            assert(b2[p] == b[p + 1] && b2[q] == b[q + 1]);
            assert(lex_lt(b[p + 1]@, b[q + 1]@));
        }
        lemma_sorted_sets_equal(a2, b2);
        assert(a =~= b2.insert(0, a[0]));
        assert(b =~= b2.insert(0, b[0]));
    }
}

/// The kept address set does not depend on the order the addresses were read in: two
/// readings with the same addresses normalize to the same sequence.
pub proof fn lemma_normalized_order_free(a: Seq<[u8; 4]>, b: Seq<[u8; 4]>, ra: Seq<[u8; 4]>, rb: Seq<[u8; 4]>)
    requires
        forall|x: [u8; 4]| #[trigger] a.contains(x) == b.contains(x),
        normalized_v4(ra, a),
        normalized_v4(rb, b),
    ensures
        ra == rb,
{
    assert forall|x: [u8; 4]| #[trigger] ra.contains(x) == rb.contains(x) by {
        assert(ra.contains(x) == a.contains(x));
        assert(rb.contains(x) == b.contains(x));
    }
    lemma_sorted_sets_equal(ra, rb);
}

} // verus!
