//! The octet codec: IP address values to and from their raw bytes.
use vstd::prelude::*;

use crate::{Error, AF_INET, AF_INET6};

verus! {

/// An IP address value: four octets for IPv4, sixteen for IPv6, in network
/// order.
#[derive(Debug, Clone, Copy, PartialEq, Eq)]
pub enum IpAddr {
    V4([u8; 4]),
    V6([u8; 16]),
}

impl View for IpAddr {
    type V = Seq<u8>;

    /// The address's octets; their count tells the two kinds apart.
    open spec fn view(&self) -> Seq<u8> {
        match self {
            IpAddr::V4(a) => a@,
            IpAddr::V6(a) => a@,
        }
    }
}

/// The family implied by an octet string of a well-formed address.
pub open spec fn family_of_octets(octets: Seq<u8>) -> u8 {
    if octets.len() == 4 {
        AF_INET
    } else {
        AF_INET6
    }
}

/// Whether an octet string has one of the two address lengths.
pub open spec fn is_address_length(octets: Seq<u8>) -> bool {
    octets.len() == 4 || octets.len() == 16
}

/// Decoding of an address-typed attribute under a message's family: the
/// length must be 4 or 16, and it must agree with the family.
pub open spec fn decode_octets(octets: Seq<u8>, family: u8) -> Result<Seq<u8>, Error> {
    if !is_address_length(octets) {
        Err(Error::MalformedAddress)
    } else if family_of_octets(octets) != family {
        Err(Error::FamilyMismatch)
    } else {
        Ok(octets)
    }
}

impl IpAddr {
    /// The family number of this address.
    pub fn family(&self) -> (r: u8)
        ensures
            r == family_of_octets(self@),
            is_address_length(self@),
    {
        match self {
            IpAddr::V4(_) => AF_INET,
            IpAddr::V6(_) => AF_INET6,
        }
    }
}

/// The octets of an address, without a family tag.
pub fn addr_to_octets(addr: IpAddr) -> (r: Vec<u8>)
    ensures
        r@ == addr@,
        is_address_length(r@),
{
    let mut out: Vec<u8> = Vec::new();
    match addr {
        IpAddr::V4(a) => {
            let mut i: usize = 0;
            while i < 4
                invariant
                    i <= 4,
                    out@ == a@.subrange(0, i as int),
                decreases 4 - i,
            {
                out.push(a[i]);
                i = i + 1;
                assert(out@ =~= a@.subrange(0, i as int));
            }
            assert(out@ =~= a@);
        },
        IpAddr::V6(a) => {
            let mut i: usize = 0;
            while i < 16
                invariant
                    i <= 16,
                    out@ == a@.subrange(0, i as int),
                decreases 16 - i,
            {
                out.push(a[i]);
                i = i + 1;
                assert(out@ =~= a@.subrange(0, i as int));
            }
            assert(out@ =~= a@);
        },
    }
    out
}

/// The address whose octets these are: 4 bytes give IPv4, 16 bytes IPv6,
/// any other length is malformed.
pub fn octets_to_addr(octets: &[u8]) -> (r: Result<IpAddr, Error>)
    ensures
        is_address_length(octets@) <==> r is Ok,
        r matches Ok(a) ==> a@ == octets@,
        !is_address_length(octets@) ==> r == Err::<IpAddr, Error>(Error::MalformedAddress),
{
    if octets.len() == 4 {
        let mut ary: [u8; 4] = [0u8; 4];
        let mut i: usize = 0;
        while i < 4
            invariant
                i <= 4,
                octets@.len() == 4,
                forall|j: int| 0 <= j < i ==> ary@[j] == octets@[j],
            decreases 4 - i,
        {
            ary[i] = octets[i];
            i = i + 1;
        }
        assert(ary@ =~= octets@);
        Ok(IpAddr::V4(ary))
    } else if octets.len() == 16 {
        let mut ary: [u8; 16] = [0u8; 16];
        let mut i: usize = 0;
        while i < 16
            invariant
                i <= 16,
                octets@.len() == 16,
                forall|j: int| 0 <= j < i ==> ary@[j] == octets@[j],
            decreases 16 - i,
        {
            ary[i] = octets[i];
            i = i + 1;
        }
        assert(ary@ =~= octets@);
        Ok(IpAddr::V6(ary))
    } else {
        Err(Error::MalformedAddress)
    }
}

/// Decodes an address-typed attribute of a message whose header carries
/// `family`, failing when the bytes are malformed or of the other family.
pub fn decode_addr(octets: &[u8], family: u8) -> (r: Result<IpAddr, Error>)
    ensures
        match decode_octets(octets@, family) {
            Ok(o) => r matches Ok(a) && a@ == o,
            Err(e) => r == Err::<IpAddr, Error>(e),
        },
{
    let addr = octets_to_addr(octets)?;
    if addr.family() != family {
        return Err(Error::FamilyMismatch);
    }
    Ok(addr)
}

/// An address is determined by its octets: two addresses with the same
/// octets are the same address.
pub proof fn lemma_octets_determine_address(a: IpAddr, b: IpAddr)
    requires
        a@ == b@,
    ensures
        a == b,
{
    broadcast use vstd::array::group_array_axioms;

    match (a, b) {
        (IpAddr::V4(x), IpAddr::V4(y)) => {
            assert(forall|i: int| 0 <= i < 4 ==> x[i] == x@[i] && y[i] == y@[i]);
            assert(x =~= y);
        },
        (IpAddr::V6(x), IpAddr::V6(y)) => {
            assert(forall|i: int| 0 <= i < 16 ==> x[i] == x@[i] && y[i] == y@[i]);
            assert(x =~= y);
        },
        (IpAddr::V4(x), IpAddr::V6(y)) => {
            assert(x@.len() != y@.len());
        },
        (IpAddr::V6(x), IpAddr::V4(y)) => {
            assert(x@.len() != y@.len());
        },
    }
}

} // verus!
