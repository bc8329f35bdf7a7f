use vstd::prelude::*;
use std::collections::HashMap;
use std::fmt::Debug;
use vstd::std_specs::convert::FromSpecImpl;

verus! {

#[verifier::external_type_specification]
#[verifier::external_body]
pub struct ExIoError(std::io::Error);

/// Address family of a multicast socket.
#[derive(Debug, Clone, Copy, PartialEq, Eq, Structural)]
pub enum MulticastFamily {
    Ipv4,
    Ipv6,
}

impl MulticastFamily {
    /// `IPv4` or `IPv6`.
    pub fn to_string(&self) -> (r: String)
        ensures
            r@ == match self {
                MulticastFamily::Ipv4 => "IPv4"@,
                MulticastFamily::Ipv6 => "IPv6"@,
            },
    {
        match self {
            MulticastFamily::Ipv4 => "IPv4".to_owned(),
            MulticastFamily::Ipv6 => "IPv6".to_owned(),
        }
    }
}

/// Failures of the mDNS responder.
#[derive(Debug)]
pub enum BonjourError {
    /// Multicast on the interface did not hold up for the family.
    MulticastUnstable { iface: String, family: MulticastFamily, source: std::io::Error },
    Io(std::io::Error),
}

impl From<std::io::Error> for BonjourError {
    fn from(value: std::io::Error) -> (r: Self) {
        BonjourError::Io(value)
    }
}

impl FromSpecImpl<std::io::Error> for BonjourError {
    open spec fn obeys_from_spec() -> bool {
        true
    }

    open spec fn from_spec(v: std::io::Error) -> BonjourError {
        BonjourError::Io(v)
    }
}

/// Which address families the responder serves.
#[derive(PartialEq, Eq, Debug, Clone, Copy, Structural)]
pub enum BonjourType {
    Ipv6,
    Ipv4,
    Ipv6AndIpv4,
}

/// A kind of service entry: its service type and how it maps to TXT properties.
pub trait BonjourEntryType: Send + Sync + 'static {
    type Entry: Send + Sync + Clone + Eq + Debug;

    fn service_type() -> &'static str;

    fn from_props(data: &HashMap<String, String>) -> Self::Entry;

    fn to_props(data: Self::Entry, output: &mut HashMap<String, String>);
}

/// The value of the TXT property named `key`, or an empty string. Where `key` occurs more
/// than once the last one counts, as it does in a map built from the pairs in order.
pub fn get_bonjour_txt_optional(txt: &[(String, String)], key: &str) -> (r: String)
    ensures
        (exists|i: int| 0 <= i < txt@.len() && #[trigger] txt@[i].0@ == key@) ==> ({
            let i = choose|i: int| 0 <= i < txt@.len() && #[trigger] txt@[i].0@ == key@
                && forall|j: int| i < j < txt@.len() ==> #[trigger] txt@[j].0@ != key@;
            r@ == txt@[i].1@
        }),
        !(exists|i: int| 0 <= i < txt@.len() && #[trigger] txt@[i].0@ == key@) ==> r@ == Seq::<char>::empty(),
{
    let wanted = key.to_owned();
    let mut i: usize = txt.len();
    while i > 0
        invariant
            i <= txt@.len(),
            wanted@ == key@,
            forall|j: int| i <= j < txt@.len() ==> #[trigger] txt@[j].0@ != key@,
        decreases i,
    {
        i = i - 1;
        if txt[i].0 == wanted {
            let r = txt[i].1.clone();
            proof {
                let k = i as int;
                assert(0 <= k < txt@.len() && txt@[k].0@ == key@ && forall|j: int| k < j < txt@.len() ==> #[trigger] txt@[j].0@ != key@);
                let c = choose|c: int| 0 <= c < txt@.len() && #[trigger] txt@[c].0@ == key@
                    && forall|j: int| c < j < txt@.len() ==> #[trigger] txt@[j].0@ != key@;
                if c < k {
                    assert(txt@[k].0@ != key@);
                } else if c > k {
                    assert(txt@[c].0@ != key@);
                }
            }
            return r;
        }
    }
    String::new()
}

} // verus!
