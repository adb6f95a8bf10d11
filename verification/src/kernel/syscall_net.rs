//! Default routes read from the kernel's routing tables, as the text of
//! `/proc/net/route` and `/proc/net/ipv6_route` gives them.
use vstd::prelude::*;
use vstd::string::StringSliceAdditionalSpecFns;
use vstd::utf8::{encode_utf8, encode_utf8_decode_utf8};
use crate::database::keymap::ByteKeyMap;
use crate::scan::{
    copy_range, fields, lemma_pair_fits, parse_u32_radix, parse_u32_spec, split_bytes, split_fields,
    split_pieces,
};

verus! {

/// `n` ASCII zeros.
pub open spec fn zero_digits(n: nat) -> Seq<u8> {
    Seq::new(n, |i: int| 48u8)
}

/// The gateway a line of the IPv4 routing table gives for the default
/// route: its destination (second field) is `00000000` and its gateway
/// (third field) reads as a hexadecimal `u32`.
pub open spec fn route_line_gateway(line: Seq<u8>) -> Option<u32> {
    let f = fields(line);
    if f.len() >= 3 && f[1] == zero_digits(8) {
        parse_u32_spec(f[2], 16)
    } else {
        None
    }
}

/// The gateway of the first line that gives one.
pub open spec fn first_gateway(lines: Seq<Seq<u8>>) -> Option<u32>
    decreases lines.len(),
{
    if lines.len() == 0 {
        None
    } else if route_line_gateway(lines[0]) is Some {
        route_line_gateway(lines[0])
    } else {
        first_gateway(lines.drop_first())
    }
}

fn is_zero_digits(f: &Vec<u8>, n: usize) -> (r: bool)
    ensures
        r == (f@ == zero_digits(n as nat)),
{
    if f.len() != n {
        return false;
    }
    let mut i: usize = 0;
    while i < n
        invariant
            i <= n,
            f@.len() == n,
            forall|j: int| 0 <= j < i ==> f@[j] == 48u8,
        decreases n - i,
    {
        if f[i] != 48 {
            return false;
        }
        i = i + 1;
    }
    assert(f@ =~= zero_digits(n as nat));
    true
}

/// The four octets of an address, in network order, from the value the
/// routing table prints: the table writes the address as it lies in memory
/// read as a little-endian `u32`, so the first octet is the lowest byte.
pub open spec fn route_octets(g: u32) -> [u8; 4] {
    [(g % 256) as u8, ((g / 256) % 256) as u8, ((g / 65536) % 256) as u8, (g / 16777216) as u8]
}

fn octets_of(g: u32) -> (r: [u8; 4])
    ensures
        r == route_octets(g),
{
    [(g % 256) as u8, ((g / 256) % 256) as u8, ((g / 65536) % 256) as u8, (g / 16777216) as u8]
}

/// The default gateway in the text of the IPv4 routing table, as its four
/// octets in network order; fields are separated by ASCII whitespace and
/// lines by line feeds.
pub fn default_gateway_from_route_table(text: &[u8]) -> (r: Option<[u8; 4]>)
    ensures
        r == match first_gateway(split_pieces(text@, 10)) {
            Some(g) => Some(route_octets(g)),
            None => None::<[u8; 4]>,
        },
{
    let lines = split_bytes(text, 10);
    let ghost ls = split_pieces(text@, 10);
    let mut i: usize = 0;
    proof {
        assert(ls.subrange(0, ls.len() as int) =~= ls);
    }
    while i < lines.len()
        invariant
            i <= lines@.len(),
            ls == split_pieces(text@, 10),
            lines@.map_values(|v: Vec<u8>| v@) == ls,
            first_gateway(ls) == first_gateway(ls.subrange(i as int, ls.len() as int)),
        decreases lines@.len() - i,
    {
        let f = split_fields(lines[i].as_slice());
        let ghost rest = ls.subrange(i as int, ls.len() as int);
        proof {
            assert(rest[0] == lines@[i as int]@);
            assert(rest.drop_first() =~= ls.subrange(i + 1, ls.len() as int));
        }
        if f.len() >= 3 && is_zero_digits(&f[1], 8) {
            proof {
                assert(f@[1]@ == fields(lines@[i as int]@)[1]);
                assert(f@[2]@ == fields(lines@[i as int]@)[2]);
            }
            let g = parse_u32_radix(f[2].as_slice(), 16);
            match g {
                Some(v) => {
                    return Some(octets_of(v));
                },
                None => {},
            }
        } else {
            proof {
                if f@.len() >= 3 {
                    assert(f@[1]@ == fields(lines@[i as int]@)[1]);
                }
            }
        }
        i = i + 1;
    }
    None
}

/// The routing-table spelling of the IPv6 default destination and of an
/// unset gateway: 32 zeros.
pub open spec fn v6_zero() -> Seq<u8> {
    zero_digits(32)
}

/// A line of the IPv6 routing table for the default route (first field all
/// zeros) with a gateway set (fifth field not all zeros).
pub open spec fn v6_candidate(line: Seq<u8>) -> bool {
    let f = fields(line);
    f.len() >= 5 && f[0] == v6_zero() && f[4] != v6_zero()
}

/// The gateway field of the first candidate line.
pub open spec fn first_v6_gateway_field(lines: Seq<Seq<u8>>) -> Option<Seq<u8>>
    decreases lines.len(),
{
    if lines.len() == 0 {
        None
    } else if v6_candidate(lines[0]) {
        Some(fields(lines[0])[4])
    } else {
        first_v6_gateway_field(lines.drop_first())
    }
}

/// Byte `j` starts a character of UTF-8 text (or ends the text).
pub open spec fn starts_char(s: Seq<u8>, j: int) -> bool {
    j == s.len() || !(0x80 <= s[j] && s[j] < 0xc0)
}

/// A gateway field can be cut into 16 two-byte pieces: it has at least 32
/// bytes and every even offset up to 32 starts a character.
pub open spec fn cuttable(f: Seq<u8>) -> bool {
    f.len() >= 32 && forall|k: int| 0 <= k <= 16 ==> #[trigger] starts_char(f, 2 * k)
}

/// Byte `i` of the address: the `i`-th pair of hexadecimal digits, or 0
/// when the pair does not read as a number.
pub open spec fn hex_pair(f: Seq<u8>, i: int) -> u8 {
    match parse_u32_spec(f.subrange(2 * i, 2 * i + 2), 16) {
        Some(v) => v as u8,
        None => 0,
    }
}

/// The 16 address bytes a gateway field spells.
pub open spec fn v6_address(f: Seq<u8>) -> Seq<u8> {
    Seq::new(16, |i: int| hex_pair(f, i))
}

/// Whether the table's default route, if it has one, can be read: its
/// gateway field can be cut into 16 two-byte pieces. Reading a table where
/// it cannot is refused.
pub fn v6_route_table_readable(text: &[u8]) -> (r: bool)
    ensures
        r == (first_v6_gateway_field(split_pieces(text@, 10)) matches Some(f) ==> cuttable(f)),
{
    let lines = split_bytes(text, 10);
    let ghost ls = split_pieces(text@, 10);
    let mut i: usize = 0;
    proof {
        assert(ls.subrange(0, ls.len() as int) =~= ls);
    }
    while i < lines.len()
        invariant
            i <= lines@.len(),
            ls == split_pieces(text@, 10),
            lines@.map_values(|v: Vec<u8>| v@) == ls,
            first_v6_gateway_field(ls) == first_v6_gateway_field(
                ls.subrange(i as int, ls.len() as int),
            ),
        decreases lines@.len() - i,
    {
        let f = split_fields(lines[i].as_slice());
        let ghost rest = ls.subrange(i as int, ls.len() as int);
        proof {
            assert(rest[0] == lines@[i as int]@);
            assert(rest.drop_first() =~= ls.subrange(i + 1, ls.len() as int));
        }
        if f.len() >= 5 && is_zero_digits(&f[0], 32) && !is_zero_digits(&f[4], 32) {
            proof {
                assert(f@[0]@ == fields(lines@[i as int]@)[0]);
                assert(f@[4]@ == fields(lines@[i as int]@)[4]);
                assert(v6_candidate(rest[0]));
            }
            return is_cuttable(&f[4]);
        } else {
            proof {
                if f@.len() >= 5 {
                    assert(f@[0]@ == fields(lines@[i as int]@)[0]);
                    assert(f@[4]@ == fields(lines@[i as int]@)[4]);
                }
            }
        }
        i = i + 1;
    }
    true
}

fn is_cuttable(f: &Vec<u8>) -> (r: bool)
    ensures
        r == cuttable(f@),
{
    if f.len() < 32 {
        return false;
    }
    let mut k: usize = 0;
    while k <= 16
        invariant
            k <= 17,
            f@.len() >= 32,
            forall|j: int| 0 <= j < k ==> #[trigger] starts_char(f@, 2 * j),
        decreases 17 - k,
    {
        let j = 2 * k;
        if j < f.len() && 0x80 <= f[j] && f[j] < 0xc0 {
            proof {
                assert(!starts_char(f@, 2 * k));
            }
            return false;
        }
        k = k + 1;
    }
    true
}

/// The default IPv6 gateway in the text of the IPv6 routing table, as its
/// 16 address bytes.
pub fn default_gateway_v6_from_route_table(text: &[u8]) -> (r: Option<Vec<u8>>)
    requires
        first_v6_gateway_field(split_pieces(text@, 10)) matches Some(f) ==> cuttable(f),
    ensures
        match first_v6_gateway_field(split_pieces(text@, 10)) {
            Some(f) => r matches Some(a) && a@ == v6_address(f),
            None => r is None,
        },
{
    let lines = split_bytes(text, 10);
    let ghost ls = split_pieces(text@, 10);
    let mut i: usize = 0;
    proof {
        assert(ls.subrange(0, ls.len() as int) =~= ls);
    }
    while i < lines.len()
        invariant
            i <= lines@.len(),
            ls == split_pieces(text@, 10),
            lines@.map_values(|v: Vec<u8>| v@) == ls,
            first_v6_gateway_field(ls) == first_v6_gateway_field(
                ls.subrange(i as int, ls.len() as int),
            ),
            first_v6_gateway_field(ls) matches Some(f) ==> cuttable(f),
        decreases lines@.len() - i,
    {
        let f = split_fields(lines[i].as_slice());
        let ghost rest = ls.subrange(i as int, ls.len() as int);
        proof {
            assert(rest[0] == lines@[i as int]@);
            assert(rest.drop_first() =~= ls.subrange(i + 1, ls.len() as int));
        }
        if f.len() >= 5 && is_zero_digits(&f[0], 32) && !is_zero_digits(&f[4], 32) {
            proof {
                assert(f@[0]@ == fields(lines@[i as int]@)[0]);
                assert(f@[4]@ == fields(lines@[i as int]@)[4]);
                assert(v6_candidate(rest[0]));
            }
            let g = &f[4];
            let mut bytes: Vec<u8> = Vec::new();
            let mut k: usize = 0;
            while k < 16
                invariant
                    k <= 16,
                    g@.len() >= 32,
                    bytes@.len() == k,
                    forall|j: int| 0 <= j < k ==> #[trigger] bytes@[j] == hex_pair(g@, j),
                decreases 16 - k,
            {
                let pair = copy_range(g.as_slice(), 2 * k, 2);
                let b: u8 = match parse_u32_radix(pair.as_slice(), 16) {
                    Some(v) => {
                        proof {
                            lemma_pair_fits(pair@);
                        }
                        v as u8
                    },
                    None => 0,
                };
                bytes.push(b);
                k = k + 1;
            }
            assert(bytes@ =~= v6_address(g@));
            return Some(bytes);
        } else {
            proof {
                if f@.len() >= 5 {
                    assert(f@[0]@ == fields(lines@[i as int]@)[0]);
                    assert(f@[4]@ == fields(lines@[i as int]@)[4]);
                }
            }
        }
        i = i + 1;
    }
    None
}

/// An address of a network interface.
#[derive(Clone, Copy, Debug, PartialEq, Eq)]
pub enum InterfaceAddr {
    /// An IPv4 address as a 32-bit value, first octet highest.
    V4(u32),
    /// The 16 bytes of an IPv6 address.
    V6([u8; 16]),
}

/// Network interface for densified operations
pub struct NetworkInterface {
    pub name: String,
    pub addrs: Vec<InterfaceAddr>,
    pub flags: u32,
}

/// What is known of an interface: its flags and addresses, in the order
/// they were listed.
pub open spec fn interface_view(i: NetworkInterface) -> (u32, Seq<InterfaceAddr>) {
    (i.flags, i.addrs@)
}

/// Interfaces by name, gathered from the system's list of interface
/// addresses, where a name appears once per address.
pub struct InterfaceTable {
    map: ByteKeyMap<NetworkInterface>,
}

/// The table after one more listed entry: the first entry of a name fixes
/// its flags; each entry with an address adds it.
pub open spec fn after_entry(
    t: Map<Seq<u8>, (u32, Seq<InterfaceAddr>)>,
    name: Seq<u8>,
    flags: u32,
    addr: Option<InterfaceAddr>,
) -> Map<Seq<u8>, (u32, Seq<InterfaceAddr>)> {
    let (f, addrs) = if t.dom().contains(name) {
        t[name]
    } else {
        (flags, Seq::empty())
    };
    t.insert(
        name,
        (
            f,
            match addr {
                Some(a) => addrs.push(a),
                None => addrs,
            },
        ),
    )
}

impl InterfaceTable {
    /// Entries in key order, and each interface is filed under the bytes of
    /// its own name.
    pub closed spec fn wf(&self) -> bool {
        &&& self.map.wf()
        &&& forall|k: Seq<u8>| #[trigger]
            self.map.map().dom().contains(k) ==> encode_utf8(self.map.map()[k].name@) == k
    }

    /// Interfaces by the bytes of their names.
    pub closed spec fn view_map(&self) -> Map<Seq<u8>, (u32, Seq<InterfaceAddr>)> {
        self.map.map().map_values(|i: NetworkInterface| interface_view(i))
    }

    pub fn new() -> (r: Self)
        ensures
            r.wf(),
            r.view_map() == Map::<Seq<u8>, (u32, Seq<InterfaceAddr>)>::empty(),
    {
        let r = Self { map: ByteKeyMap::new() };
        proof {
            assert(r.map.map() =~= Map::<Seq<u8>, NetworkInterface>::empty());
            assert(r.view_map() =~= Map::<Seq<u8>, (u32, Seq<InterfaceAddr>)>::empty());
        }
        r
    }

    /// Take one listed entry: an interface name, its flags, and the address
    /// it carries if it is an IPv4 or IPv6 one.
    pub fn add_entry(&mut self, name: &str, flags: u32, addr: Option<InterfaceAddr>)
        requires
            old(self).wf(),
        ensures
            final(self).wf(),
            final(self).view_map() == after_entry(old(self).view_map(), name.spec_bytes(), flags, addr),
            final(self).name_filed(name@),
    {
        let ghost before = self.map.map();
        let ghost k = name.spec_bytes();
        let bytes = name.as_bytes();
        let key = copy_range(bytes, 0, bytes.len());
        proof {
            assert(k.subrange(0, k.len() as int) =~= k);
        }
        let removed = self.map.remove(name.as_bytes());
        let ghost had = removed is Some;
        let mut iface = match removed {
            Some(i) => i,
            None => NetworkInterface { name: String::from_str(name), addrs: Vec::new(), flags },
        };
        let ghost start = interface_view(iface);
        proof {
            if had {
                assert(before.dom().contains(k));
                assert(start == interface_view(before[k]));
            } else {
                assert(!before.dom().contains(k));
                assert(start.1 =~= Seq::<InterfaceAddr>::empty());
            }
        }
        match addr {
            Some(a) => iface.addrs.push(a),
            None => {},
        }
        let ghost added = interface_view(iface);
        self.map.insert(key, iface);
        proof {
            let old_view = before.map_values(|i: NetworkInterface| interface_view(i));
            let expect = after_entry(old_view, k, flags, addr);
            assert(key@ == k);
            assert(self.map.map() =~= before.remove(k).insert(k, self.map.map()[k]));
            assert(interface_view(self.map.map()[k]) == added);
            assert(expect[k] == added);
            assert(self.view_map().dom() =~= expect.dom());
            assert forall|kk: Seq<u8>| #[trigger] self.view_map().dom().contains(kk) implies self.view_map()[kk] == expect[kk] by {
                if kk != k {
                    assert(self.map.map()[kk] == before[kk]);
                }
            }
            assert(self.view_map() =~= expect);
            assert(iface.name@ == name@) by {
                if had {
                    assert(encode_utf8(before[k].name@) == k);
                    encode_utf8_decode_utf8(before[k].name@);
                    encode_utf8_decode_utf8(name@);
                }
            }
            assert forall|kk: Seq<u8>| #[trigger] self.map.map().dom().contains(kk) implies encode_utf8(
                self.map.map()[kk].name@,
            ) == kk by {
                if kk != k {
                    assert(self.map.map()[kk] == before[kk]);
                }
            }
        }
    }

    /// Whether an interface of this name is listed, under that name.
    pub closed spec fn name_filed(&self, name: Seq<char>) -> bool {
        self.map.map().dom().contains(encode_utf8(name)) && self.map.map()[encode_utf8(name)].name@
            == name
    }

    /// The interface of a name, if listed.
    pub fn get(&self, name: &str) -> (r: Option<&NetworkInterface>)
        requires
            self.wf(),
        ensures
            match r {
                Some(i) => self.view_map().dom().contains(name.spec_bytes()) && interface_view(*i)
                    == self.view_map()[name.spec_bytes()] && i.name@ == name@,
                None => !self.view_map().dom().contains(name.spec_bytes()),
            },
    {
        let r = self.map.get(name.as_bytes());
        proof {
            if r is Some {
                let k = name.spec_bytes();
                assert(encode_utf8(self.map.map()[k].name@) == k);
                encode_utf8_decode_utf8(self.map.map()[k].name@);
                encode_utf8_decode_utf8(name@);
            }
        }
        r
    }

    /// Number of interfaces.
    pub fn len(&self) -> (r: usize)
        requires
            self.wf(),
        ensures
            r == self.view_map().dom().len(),
    {
        proof {
            crate::database::keymap::lemma_map_len(self.map.entries());
            assert(self.view_map().dom() =~= self.map.map().dom());
        }
        self.map.len()
    }
}

} // verus!
