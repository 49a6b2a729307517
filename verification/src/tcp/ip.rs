//! IP networks and the allow and deny lists built from them.

use vstd::prelude::*;

verus! {

/// An IP address as its number: 32 bits for IPv4, 128 for IPv6.
#[derive(Clone, Copy, Debug, PartialEq, Eq, Structural)]
pub enum IpAddress {
    V4(u32),
    V6(u128),
}

/// The longest prefix an address family allows.
pub open spec fn max_prefix(a: IpAddress) -> nat {
    match a {
        IpAddress::V4(_) => 32,
        IpAddress::V6(_) => 128,
    }
}

/// The IPv4 netmask of a prefix length: `prefix` leading one bits.
pub open spec fn mask_v4(prefix: u8) -> u32 {
    if prefix == 0 {
        0
    } else {
        0xffff_ffffu32 << ((32 - prefix) as u32)
    }
}

/// The IPv6 netmask of a prefix length: `prefix` leading one bits.
pub open spec fn mask_v6(prefix: u8) -> u128 {
    if prefix == 0 {
        0
    } else {
        0xffff_ffff_ffff_ffff_ffff_ffff_ffff_ffffu128 << ((128 - prefix) as u32)
    }
}

/// A network contains an address of its own family that lies between its
/// network address (host bits cleared) and its broadcast address (host bits
/// set).
pub open spec fn net_contains(net: IpAddress, prefix: u8, a: IpAddress) -> bool {
    match (net, a) {
        (IpAddress::V4(n), IpAddress::V4(x)) => (n & mask_v4(prefix)) <= x && x <= (n | !mask_v4(
            prefix,
        )),
        (IpAddress::V6(n), IpAddress::V6(x)) => (n & mask_v6(prefix)) <= x && x <= (n | !mask_v6(
            prefix,
        )),
        _ => false,
    }
}

/// An IP network: an address and a prefix length no longer than its family
/// allows.
#[derive(Clone, Copy, Debug)]
pub struct IpNetwork {
    addr: IpAddress,
    prefix_len: u8,
}

impl IpNetwork {
    /// The network's address.
    pub closed spec fn address(&self) -> IpAddress {
        self.addr
    }

    /// The network's prefix length.
    pub closed spec fn prefix(&self) -> u8 {
        self.prefix_len
    }

    /// The prefix length fits the family.
    pub closed spec fn wf(&self) -> bool {
        self.prefix_len <= max_prefix(self.addr)
    }

    /// The network of `addr` with `prefix_len` leading bits; `None` when the
    /// prefix is longer than the family allows.
    pub fn new(addr: IpAddress, prefix_len: u8) -> (r: Option<IpNetwork>)
        ensures
            r is Some <==> prefix_len <= max_prefix(addr),
            r matches Some(n) ==> n.wf() && n.address() == addr && n.prefix() == prefix_len,
    {
        let max: u8 = match addr {
            IpAddress::V4(_) => 32,
            IpAddress::V6(_) => 128,
        };
        if prefix_len > max {
            None
        } else {
            Some(IpNetwork { addr, prefix_len })
        }
    }

    /// Whether the network contains `a`.
    pub fn contains(&self, a: &IpAddress) -> (b: bool)
        requires
            self.wf(),
        ensures
            b == net_contains(self.address(), self.prefix(), *a),
    {
        match (self.addr, *a) {
            (IpAddress::V4(n), IpAddress::V4(x)) => {
                let m: u32 = if self.prefix_len == 0 {
                    0
                } else {
                    0xffff_ffffu32 << (32 - self.prefix_len) as u32
                };
                (n & m) <= x && x <= (n | !m)
            },
            (IpAddress::V6(n), IpAddress::V6(x)) => {
                let m: u128 = if self.prefix_len == 0 {
                    0
                } else {
                    0xffff_ffff_ffff_ffff_ffff_ffff_ffff_ffffu128 << (128 - self.prefix_len) as u32
                };
                (n & m) <= x && x <= (n | !m)
            },
            _ => false,
        }
    }
}

proof fn lemma_mask_v4(n: u32, x: u32, s: u32)
    by (bit_vector)
    requires
        s < 32,
    ensures
        ((n & (0xffff_ffffu32 << s)) <= x && x <= (n | !(0xffff_ffffu32 << s))) <==> (x >> s
            == n >> s),
{
}

#[verifier::rlimit(100)]
#[verifier::spinoff_prover]
proof fn lemma_mask_v6(n: u128, x: u128, s: u32)
    by (bit_vector)
    requires
        s < 128,
    ensures
        ((n & (0xffff_ffff_ffff_ffff_ffff_ffff_ffff_ffffu128 << s)) <= x && x <= (n | !(
        0xffff_ffff_ffff_ffff_ffff_ffff_ffff_ffffu128 << s))) <==> (x >> s == n >> s),
{
}

/// An IPv4 network with prefix length `prefix` contains exactly the IPv4
/// addresses whose leading `prefix` bits are those of the network address
/// (every address, for prefix 0).
pub proof fn law_v4_membership_by_prefix(n: u32, prefix: u8, x: u32)
    requires
        prefix <= 32,
    ensures
        net_contains(IpAddress::V4(n), prefix, IpAddress::V4(x)) <==> (prefix == 0 || x >> ((32
            - prefix) as u32) == n >> ((32 - prefix) as u32)),
{
    if prefix == 0 {
        assert((n & 0u32) <= x && x <= (n | !0u32)) by (bit_vector);
    } else {
        lemma_mask_v4(n, x, (32 - prefix) as u32);
    }
}

/// An IPv6 network with prefix length `prefix` contains exactly the IPv6
/// addresses whose leading `prefix` bits are those of the network address
/// (every address, for prefix 0).
pub proof fn law_v6_membership_by_prefix(n: u128, prefix: u8, x: u128)
    requires
        prefix <= 128,
    ensures
        net_contains(IpAddress::V6(n), prefix, IpAddress::V6(x)) <==> (prefix == 0 || x >> ((128
            - prefix) as u32) == n >> ((128 - prefix) as u32)),
{
    if prefix == 0 {
        assert((n & 0u128) <= x && x <= (n | !0u128)) by (bit_vector);
    } else {
        lemma_mask_v6(n, x, (128 - prefix) as u32);
    }
}

/// A network never contains an address of the other family.
pub proof fn law_families_do_not_mix(n: u32, prefix: u8, x: u128)
    ensures
        !net_contains(IpAddress::V4(n), prefix, IpAddress::V6(x)),
        !net_contains(IpAddress::V6(x), prefix, IpAddress::V4(n)),
{
}

/// Every network contains its own address.
pub proof fn law_network_contains_own_address(net: IpAddress, prefix: u8)
    ensures
        net_contains(net, prefix, net),
{
    match net {
        IpAddress::V4(n) => {
            let m = mask_v4(prefix);
            assert((n & m) <= n && n <= (n | !m)) by (bit_vector);
        },
        IpAddress::V6(n) => {
            let m = mask_v6(prefix);
            assert((n & m) <= n && n <= (n | !m)) by (bit_vector);
        },
    }
}

/// A list of networks.
pub struct IpNetList(Vec<IpNetwork>);

impl View for IpNetList {
    type V = Seq<(IpAddress, u8)>;

    closed spec fn view(&self) -> Seq<(IpAddress, u8)> {
        self.0@.map_values(|n: IpNetwork| (n.address(), n.prefix()))
    }
}

/// Some network of the list contains `a`.
pub open spec fn list_contains(nets: Seq<(IpAddress, u8)>, a: IpAddress) -> bool {
    exists|i: int| 0 <= i < nets.len() && net_contains(nets[i].0, nets[i].1, a)
}

impl IpNetList {
    /// Every network's prefix fits its family.
    pub closed spec fn wf(&self) -> bool {
        forall|i: int| 0 <= i < self.0@.len() ==> (#[trigger] self.0@[i]).wf()
    }

    /// The list of the given networks.
    pub fn new(nets: Vec<IpNetwork>) -> (l: IpNetList)
        requires
            forall|i: int| 0 <= i < nets@.len() ==> (#[trigger] nets@[i]).wf(),
        ensures
            l.wf(),
            l@ == nets@.map_values(|n: IpNetwork| (n.address(), n.prefix())),
    {
        IpNetList(nets)
    }

    /// Whether some network of the list contains `a`.
    pub fn contains(&self, a: &IpAddress) -> (b: bool)
        requires
            self.wf(),
        ensures
            b == list_contains(self@, *a),
    {
        let n = self.0.len();
        let mut i: usize = 0;
        while i < n
            invariant
                self.wf(),
                n == self@.len(),
                0 <= i <= n,
                forall|j: int| 0 <= j < i ==> !net_contains(self@[j].0, self@[j].1, *a),
            decreases n - i,
        {
            if self.0[i].contains(a) {
                assert(net_contains(self@[i as int].0, self@[i as int].1, *a));
                return true;
            }
            i = i + 1;
        }
        false
    }
}

/// A connection from `a` is let in when an allow list, if any, contains `a`
/// and a deny list, if any, does not.
pub open spec fn admitted(
    whitelist: Option<Seq<(IpAddress, u8)>>,
    blacklist: Option<Seq<(IpAddress, u8)>>,
    a: IpAddress,
) -> bool {
    &&& match whitelist {
        Some(w) => list_contains(w, a),
        None => true,
    }
    &&& match blacklist {
        Some(b) => !list_contains(b, a),
        None => true,
    }
}

/// The view of an optional list.
pub open spec fn opt_list_view(l: &Option<IpNetList>) -> Option<Seq<(IpAddress, u8)>> {
    match l {
        Some(l) => Some(l@),
        None => None,
    }
}

/// The lists are well formed where present.
pub open spec fn opt_list_wf(l: &Option<IpNetList>) -> bool {
    match l {
        Some(l) => l.wf(),
        None => true,
    }
}

/// Whether a connection from `a` is let in.
pub fn admits(whitelist: &Option<IpNetList>, blacklist: &Option<IpNetList>, a: &IpAddress) -> (b:
    bool)
    requires
        opt_list_wf(whitelist),
        opt_list_wf(blacklist),
    ensures
        b == admitted(opt_list_view(whitelist), opt_list_view(blacklist), *a),
{
    match whitelist {
        Some(w) => {
            if !w.contains(a) {
                return false;
            }
        },
        None => {},
    }
    match blacklist {
        Some(b) => {
            if b.contains(a) {
                return false;
            }
        },
        None => {},
    }
    true
}

} // verus!
