use nm::check::uplink;
use nm::link::Link;
use nm::route::{self, IpVersion, Route, RouteAttr, RouteHeader, RouteMessage, MAIN_TABLE};
use nm::util::{addr_to_octets, IpAddr};
use nm::{Error, AF_INET, AF_INET6};

fn v6(last: u8) -> IpAddr {
    IpAddr::V6([0xfd, 0, 0, 0, 0, 0, 0, 0, 0, 0, 0, 0, 0, 0, 0, last])
}

fn route_v4(table: u8, dst: [u8; 4], plen: u8) -> Route {
    Route {
        family: AF_INET,
        table,
        scope: 0,
        dst: Some((IpAddr::V4(dst), plen)),
        src: None,
        gateway: Some(IpAddr::V4([192, 168, 0, 1])),
        dev: Some(2),
        proto: 4,
        prefsrc: None,
        metric: Some(100),
    }
}

fn route_v6(table: u8, last: u8) -> Route {
    Route {
        family: AF_INET6,
        table,
        scope: 0,
        dst: Some((v6(last), 64)),
        src: None,
        gateway: None,
        dev: Some(3),
        proto: 3,
        prefsrc: None,
        metric: None,
    }
}

fn msgs(routes: &[Route]) -> Vec<RouteMessage> {
    routes.iter().map(|r| route::to_message(r).unwrap()).collect()
}

#[test]
fn route_prefixes_are_paired_with_header_lengths() {
    let mut r = route_v4(254, [10, 1, 0, 0], 16);
    r.src = Some((IpAddr::V4([10, 2, 0, 0]), 24));
    r.prefsrc = Some(IpAddr::V4([10, 1, 0, 9]));
    let m = route::to_message(&r).unwrap();
    assert_eq!(
        m.header,
        RouteHeader {
            address_family: 2,
            destination_prefix_length: 16,
            source_prefix_length: 24,
            table: 254,
            protocol: 4,
            scope: 0,
        }
    );
    assert_eq!(
        m.nlas,
        vec![
            RouteAttr::Destination(vec![10, 1, 0, 0]),
            RouteAttr::Source(vec![10, 2, 0, 0]),
            RouteAttr::Gateway(vec![192, 168, 0, 1]),
            RouteAttr::Oif(2),
            RouteAttr::PrefSource(vec![10, 1, 0, 9]),
            RouteAttr::Priority(100),
        ]
    );
}

#[test]
fn route_without_destination_sets_no_prefix_length() {
    let mut r = route_v4(254, [0, 0, 0, 0], 0);
    r.dst = None;
    let m = route::to_message(&r).unwrap();
    assert_eq!(m.header.destination_prefix_length, 0);
    assert_eq!(m.header.source_prefix_length, 0);
    assert!(!m.nlas.iter().any(|a| matches!(a, RouteAttr::Destination(_))));
}

#[test]
fn route_of_wrong_family_is_refused() {
    let mut r = route_v4(254, [10, 0, 0, 0], 8);
    r.gateway = Some(v6(1));
    assert_eq!(route::to_message(&r), Err(Error::FamilyMismatch));
}

#[test]
fn route_round_trip() {
    let mut r = route_v4(100, [10, 1, 0, 0], 16);
    r.src = Some((IpAddr::V4([10, 2, 0, 0]), 24));
    r.prefsrc = Some(IpAddr::V4([10, 1, 0, 9]));
    r.scope = 253;
    assert_eq!(route::from_message(&route::to_message(&r).unwrap()), Ok(r));
    let s = route_v6(254, 7);
    assert_eq!(route::from_message(&route::to_message(&s).unwrap()), Ok(s));
}

#[test]
fn route_decoding_takes_first_attribute() {
    let m = RouteMessage {
        header: RouteHeader {
            address_family: AF_INET,
            destination_prefix_length: 8,
            source_prefix_length: 0,
            table: 254,
            protocol: 2,
            scope: 0,
        },
        nlas: vec![
            RouteAttr::Unknown,
            RouteAttr::Priority(5),
            RouteAttr::Destination(vec![10, 0, 0, 0]),
            RouteAttr::Priority(6),
            RouteAttr::Destination(vec![1, 2, 3]),
        ],
    };
    let r = route::from_message(&m).unwrap();
    assert_eq!(r.metric, Some(5));
    assert_eq!(r.dst, Some((IpAddr::V4([10, 0, 0, 0]), 8)));
    assert_eq!(r.gateway, None);
}

#[test]
fn route_decoding_fails_on_bad_address() {
    let m = RouteMessage {
        header: RouteHeader {
            address_family: AF_INET6,
            destination_prefix_length: 0,
            source_prefix_length: 0,
            table: 254,
            protocol: 2,
            scope: 0,
        },
        nlas: vec![RouteAttr::Gateway(vec![10, 0, 0, 1])],
    };
    assert_eq!(route::from_message(&m), Err(Error::FamilyMismatch));
}

#[test]
fn route_add_dispatches_by_family() {
    let r4 = route_v4(254, [10, 0, 0, 0], 8);
    let req = route::add(&r4).unwrap();
    assert_eq!(req.version, IpVersion::V4);
    assert_eq!(req.message, route::to_message(&r4).unwrap());
    let r6 = route_v6(254, 1);
    assert_eq!(route::add(&r6).unwrap().version, IpVersion::V6);
    let mut other = route_v4(254, [10, 0, 0, 0], 8);
    other.family = 7;
    assert_eq!(route::add(&other), Err(Error::UnsupportedFamily));
    let mut mismatched = route_v6(254, 1);
    mismatched.family = AF_INET;
    assert_eq!(route::add(&mismatched), Err(Error::FamilyMismatch));
}

#[test]
fn route_listing_keeps_main_table_ipv4_first() {
    let a = route_v4(254, [10, 1, 0, 0], 16);
    let b = route_v4(100, [10, 2, 0, 0], 16);
    let c = route_v4(254, [10, 3, 0, 0], 16);
    let d = route_v6(100, 4);
    let e = route_v6(254, 5);
    let v4 = msgs(&[a.clone(), b.clone(), c.clone()]);
    let v6 = msgs(&[d.clone(), e.clone()]);
    assert_eq!(route::get(&v4, &v6).unwrap(), vec![a.clone(), c.clone(), e.clone()]);
    assert_eq!(route::list(&v4, &v6, Some(100)).unwrap(), vec![b.clone(), d.clone()]);
    assert_eq!(route::list(&v4, &v6, None).unwrap(), vec![a, b, c, d, e]);
    assert_eq!(MAIN_TABLE, 254);
}

#[test]
fn route_listing_is_stable_under_reordering() {
    let a = route_v4(254, [10, 1, 0, 0], 16);
    let b = route_v4(254, [10, 2, 0, 0], 16);
    let c = route_v6(254, 3);
    let first = route::get(&msgs(&[a.clone(), b.clone()]), &msgs(&[c.clone()])).unwrap();
    let again = route::get(&msgs(&[a.clone(), b.clone()]), &msgs(&[c.clone()])).unwrap();
    assert_eq!(first, again);
    let reordered = route::get(&msgs(&[b.clone(), a.clone()]), &msgs(&[c.clone()])).unwrap();
    assert_eq!(reordered, vec![b, a, c]);
    assert_eq!(first.len(), reordered.len());
    assert!(first.iter().all(|r| reordered.contains(r)));
}

#[test]
fn route_listing_fails_on_malformed_message() {
    let bad = RouteMessage {
        header: RouteHeader {
            address_family: AF_INET,
            destination_prefix_length: 8,
            source_prefix_length: 0,
            table: 254,
            protocol: 2,
            scope: 0,
        },
        nlas: vec![RouteAttr::Destination(vec![10, 0])],
    };
    let good = msgs(&[route_v6(254, 1)]);
    assert_eq!(route::get(&vec![bad], &good), Err(Error::MalformedAddress));
    assert_eq!(addr_to_octets(v6(1)).len(), 16);
}

fn link(linklayer: u16, flags: u32) -> Link {
    Link { family: 0, index: 1, linklayer, flags, ifname: None, mtu: None, kind: None }
}

#[test]
fn uplink_is_first_ethernet_link_up_with_carrier() {
    let up = 0x1 | 0x2 | 0x1000 | 0x10000;
    let links = vec![link(772, up), link(1, up & !0x10000), link(1, up), link(1, up)];
    assert_eq!(uplink(&links), Some(2));
    assert_eq!(uplink(&links[..2].to_vec()), None);
    assert_eq!(uplink(&vec![]), None);
}
