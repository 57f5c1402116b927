//! The health check: which interface counts as the host's uplink.
use vstd::prelude::*;

use crate::link::{Link, LinkView};

verus! {

/// Link-layer type of Ethernet (`ARPHRD_ETHER`).
pub const ARPHRD_ETHER: u16 = 1;

/// The interface is administratively up (`IFF_UP`).
pub const IFF_UP: u32 = 0x1;

/// The interface can broadcast (`IFF_BROADCAST`).
pub const IFF_BROADCAST: u32 = 0x2;

/// The interface can multicast (`IFF_MULTICAST`).
pub const IFF_MULTICAST: u32 = 0x1000;

/// The interface's carrier is up (`IFF_LOWER_UP`).
pub const IFF_LOWER_UP: u32 = 0x10000;

/// An uplink is an Ethernet link that is up, has carrier, and can both
/// broadcast and multicast.
pub open spec fn is_uplink(l: LinkView) -> bool {
    &&& l.linklayer == ARPHRD_ETHER
    &&& l.flags & IFF_LOWER_UP != 0
    &&& l.flags & IFF_UP != 0
    &&& l.flags & IFF_BROADCAST != 0
    &&& l.flags & IFF_MULTICAST != 0
}

/// Whether `link` is an uplink.
pub fn is_uplink_link(link: &Link) -> (r: bool)
    ensures
        r == is_uplink(link@),
{
    link.linklayer == ARPHRD_ETHER && link.flags & IFF_LOWER_UP != 0 && link.flags & IFF_UP != 0
        && link.flags & IFF_BROADCAST != 0 && link.flags & IFF_MULTICAST != 0
}

/// The position of the first uplink among `links`, if there is one.
pub fn uplink(links: &Vec<Link>) -> (r: Option<usize>)
    ensures
        match r {
            Some(i) => i < links@.len() && is_uplink(links@[i as int]@) && forall|j: int|
                0 <= j < i ==> !is_uplink(#[trigger] links@[j]@),
            None => forall|j: int| 0 <= j < links@.len() ==> !is_uplink(#[trigger] links@[j]@),
        },
{
    let mut i: usize = 0;
    while i < links.len()
        invariant
            i <= links@.len(),
            forall|j: int| 0 <= j < i ==> !is_uplink(#[trigger] links@[j]@),
        decreases links@.len() - i,
    {
        if is_uplink_link(&links[i]) {
            return Some(i);
        }
        i = i + 1;
    }
    None
}

} // verus!
