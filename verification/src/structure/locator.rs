use vstd::prelude::*;

verus! {

/// The kinds of transport that a locator can name, and the port that
/// stands for none.
pub const LOCATOR_KIND_INVALID: i32 = -1;

pub const LOCATOR_KIND_RESERVED: i32 = 0;

#[allow(non_upper_case_globals)]
pub const LOCATOR_KIND_UDPv4: i32 = 1;

#[allow(non_upper_case_globals)]
pub const LOCATOR_KIND_UDPv6: i32 = 2;

pub const LOCATOR_PORT_INVALID: u32 = 0;

/// A network endpoint: transport kind, port and a 16-byte address. An IPv4
/// address occupies the last four bytes.
#[derive(Clone, Copy, Debug, PartialEq, Eq)]
pub struct Locator {
    pub kind: i32,
    pub port: u32,
    pub address: [u8; 16],
}

/// The locators at which an endpoint can be reached.
pub type LocatorList = Vec<Locator>;

impl Locator {
    /// The locator that names no place.
    pub open spec fn spec_invalid() -> Locator {
        Locator {
            kind: LOCATOR_KIND_INVALID,
            port: LOCATOR_PORT_INVALID,
            address: [0u8, 0u8, 0u8, 0u8, 0u8, 0u8, 0u8, 0u8, 0u8, 0u8, 0u8, 0u8, 0u8, 0u8, 0u8, 0u8],
        }
    }

    /// Whether the locator names a UDP endpoint with an IPv4 address.
    pub open spec fn spec_is_udp_v4(&self) -> bool {
        self.kind == LOCATOR_KIND_UDPv4
    }

    /// The locator that names no place.
    #[verifier::when_used_as_spec(spec_invalid)]
    pub fn invalid() -> (r: Locator)
        ensures
            r == Self::spec_invalid(),
    {
        Locator {
            kind: LOCATOR_KIND_INVALID,
            port: LOCATOR_PORT_INVALID,
            address: [0u8, 0u8, 0u8, 0u8, 0u8, 0u8, 0u8, 0u8, 0u8, 0u8, 0u8, 0u8, 0u8, 0u8, 0u8, 0u8],
        }
    }

    /// A UDP/IPv4 locator for the given address and port.
    pub fn udp_v4(a: u8, b: u8, c: u8, d: u8, port: u16) -> (r: Locator)
        ensures
            r.kind == LOCATOR_KIND_UDPv4,
            r.port == port,
            r.address@ == seq![0u8, 0u8, 0u8, 0u8, 0u8, 0u8, 0u8, 0u8, 0u8, 0u8, 0u8, 0u8, a, b, c, d],
    {
        Locator {
            kind: LOCATOR_KIND_UDPv4,
            port: port as u32,
            address: [0u8, 0u8, 0u8, 0u8, 0u8, 0u8, 0u8, 0u8, 0u8, 0u8, 0u8, 0u8, a, b, c, d],
        }
    }

    /// Whether the locator names a UDP endpoint with an IPv4 address.
    #[verifier::when_used_as_spec(spec_is_udp_v4)]
    pub fn is_udp_v4(&self) -> (r: bool)
        ensures
            r == self.spec_is_udp_v4(),
    {
        self.kind == LOCATOR_KIND_UDPv4
    }

    /// The IPv4 address and the port of a UDP/IPv4 locator: the address is
    /// the last four bytes of the locator's address. There is none where the
    /// locator is of another kind or where its port is no UDP port.
    pub fn to_udp_v4(&self) -> (r: Option<([u8; 4], u16)>)
        ensures
            r is Some <==> self.spec_is_udp_v4() && self.port <= 0xFFFF,
            r matches Some((a, port)) ==> port == self.port && a@ == self.address@.subrange(12, 16),
    {
        if self.kind != LOCATOR_KIND_UDPv4 || self.port > 0xFFFF {
            return None;
        }
        let a: [u8; 4] = [self.address[12], self.address[13], self.address[14], self.address[15]];
        assert(a@ =~= self.address@.subrange(12, 16));
        Some((a, self.port as u16))
    }
}

/// Copies a locator list.
pub fn clone_locators(list: &Vec<Locator>) -> (r: Vec<Locator>)
    ensures
        r@ == list@,
{
    let mut out: Vec<Locator> = Vec::new();
    let mut i: usize = 0;
    while i < list.len()
        invariant
            i <= list.len(),
            out@ == list@.subrange(0, i as int),
        decreases list.len() - i,
    {
        out.push(list[i]);
        proof {
            assert(list@.subrange(0, i + 1) =~= list@.subrange(0, i as int).push(list@[i as int]));
        }
        i += 1;
    }
    proof {
        assert(list@.subrange(0, list.len() as int) =~= list@);
    }
    out
}

} // verus!
