use nm::address::{self, Address, AddressAttr, AddressHeader, AddressMessage};
use nm::link::{self, InfoKind, Kind, Link, LinkAttr, LinkHeader, LinkInfo, LinkMessage};
use nm::util::{addr_to_octets, decode_addr, octets_to_addr, IpAddr};
use nm::{Error, AF_INET, AF_INET6};

fn v6_addr() -> IpAddr {
    IpAddr::V6([0x20, 0x01, 0x0d, 0xb8, 0, 0, 0, 0, 0, 0, 0, 0, 0, 0, 0, 1])
}

fn dummy_link() -> Link {
    Link {
        family: 2,
        index: 0,
        linklayer: 0,
        flags: 0,
        ifname: Some("dummy0".to_string()),
        mtu: None,
        kind: Some(Kind::Dummy),
    }
}

fn address_of(family: u8, plen: u8, value: IpAddr) -> Address {
    Address {
        family,
        plen,
        flags: 0,
        scope: 0,
        index: 3,
        address: Some(value),
        local: None,
        label: None,
        broadcast: None,
    }
}

#[test]
fn octets_of_ipv4_are_network_order() {
    assert_eq!(addr_to_octets(IpAddr::V4([10, 0, 0, 5])), vec![10, 0, 0, 5]);
}

#[test]
fn octets_of_ipv6_are_sixteen() {
    let o = addr_to_octets(v6_addr());
    assert_eq!(o.len(), 16);
    assert_eq!(o[0], 0x20);
    assert_eq!(o[15], 1);
}

#[test]
fn octets_decode_by_length() {
    assert_eq!(octets_to_addr(&[192, 168, 1, 1]), Ok(IpAddr::V4([192, 168, 1, 1])));
    assert_eq!(octets_to_addr(&addr_to_octets(v6_addr())), Ok(v6_addr()));
}

#[test]
fn octets_of_other_lengths_are_malformed() {
    assert_eq!(octets_to_addr(&[1, 2, 3]), Err(Error::MalformedAddress));
    assert_eq!(octets_to_addr(&[1, 2, 3, 4, 5]), Err(Error::MalformedAddress));
    assert_eq!(octets_to_addr(&[]), Err(Error::MalformedAddress));
}

#[test]
fn decoding_checks_header_family() {
    assert_eq!(decode_addr(&[10, 0, 0, 1], AF_INET), Ok(IpAddr::V4([10, 0, 0, 1])));
    assert_eq!(decode_addr(&[10, 0, 0, 1], AF_INET6), Err(Error::FamilyMismatch));
    assert_eq!(decode_addr(&addr_to_octets(v6_addr()), AF_INET), Err(Error::FamilyMismatch));
    assert_eq!(decode_addr(&[10, 0, 0], AF_INET), Err(Error::MalformedAddress));
}

#[test]
fn link_encodes_header_and_present_attributes() {
    let mut l = dummy_link();
    l.mtu = Some(1400);
    l.index = 9;
    l.flags = 3;
    let msg = link::to_message(&l).unwrap();
    assert_eq!(
        msg.header,
        LinkHeader { interface_family: 2, index: 9, link_layer_type: 0, flags: 3 }
    );
    assert_eq!(
        msg.nlas,
        vec![
            LinkAttr::IfName("dummy0".to_string()),
            LinkAttr::Mtu(1400),
            LinkAttr::Info(vec![LinkInfo::Kind(InfoKind::Dummy)]),
        ]
    );
}

#[test]
fn link_without_optional_fields_has_no_attributes() {
    let l = Link { family: 0, index: 1, linklayer: 1, flags: 0, ifname: None, mtu: None, kind: None };
    assert!(link::to_message(&l).unwrap().nlas.is_empty());
}

#[test]
fn link_of_other_kind_cannot_be_encoded() {
    let mut l = dummy_link();
    l.kind = Some(Kind::Other);
    assert_eq!(link::to_message(&l), Err(Error::UnsupportedKind));
    let mut nlas = vec![LinkAttr::Mtu(1)];
    assert_eq!(link::push_nlas(&l, &mut nlas), Err(Error::UnsupportedKind));
    assert_eq!(nlas, vec![LinkAttr::Mtu(1)]);
}

#[test]
fn link_round_trip() {
    for kind in [Kind::Dummy, Kind::Ifb, Kind::Bridge, Kind::Tun, Kind::Vrf, Kind::Wireguard] {
        let mut l = dummy_link();
        l.kind = Some(kind);
        l.mtu = Some(9000);
        let back = link::from_message(&link::to_message(&l).unwrap());
        assert_eq!(back, l);
    }
    let bare = Link { family: 7, index: 4, linklayer: 772, flags: 0x10043, ifname: None, mtu: None, kind: None };
    assert_eq!(link::from_message(&link::to_message(&bare).unwrap()), bare);
}

#[test]
fn link_decoding_ignores_unknown_and_keeps_last() {
    let msg = LinkMessage {
        header: LinkHeader { interface_family: 0, index: 2, link_layer_type: 1, flags: 0 },
        nlas: vec![
            LinkAttr::IfName("a".to_string()),
            LinkAttr::Unknown,
            LinkAttr::Info(vec![LinkInfo::Unknown, LinkInfo::Kind(InfoKind::Veth)]),
            LinkAttr::IfName("eth0".to_string()),
        ],
    };
    let l = link::from_message(&msg);
    assert_eq!(l.ifname, Some("eth0".to_string()));
    assert_eq!(l.kind, Some(Kind::Other));
    assert_eq!(l.mtu, None);
    assert_eq!(l.index, 2);
}

#[test]
fn wire_kinds_map_to_entity_kinds() {
    assert_eq!(Kind::from_info(&InfoKind::Bridge), Kind::Bridge);
    assert_eq!(Kind::from_info(&InfoKind::Wireguard), Kind::Wireguard);
    assert_eq!(Kind::from_info(&InfoKind::Other("foo".to_string())), Kind::Other);
    assert_eq!(Kind::Tun.to_info(), Ok(InfoKind::Tun));
    assert_eq!(Kind::Other.to_info(), Err(Error::UnsupportedKind));
}

#[test]
fn added_link_is_listed_with_kernel_index() {
    let msg = link::to_message(&dummy_link()).unwrap();
    // The kernel answers the dump with the index it assigned.
    let mut listed = msg.clone();
    listed.header.index = 12;
    let other = LinkMessage {
        header: LinkHeader { interface_family: 0, index: 1, link_layer_type: 772, flags: 0 },
        nlas: vec![LinkAttr::IfName("lo".to_string())],
    };
    let links = link::get(&vec![other, listed]);
    assert_eq!(links.len(), 2);
    let found: Vec<&Link> = links.iter().filter(|l| l.ifname.as_deref() == Some("dummy0")).collect();
    assert_eq!(found.len(), 1);
    assert_eq!(found[0].kind, Some(Kind::Dummy));
    assert_ne!(found[0].index, 0);
}

#[test]
fn link_change_keeps_only_present_fields() {
    let mut l = dummy_link();
    l.mtu = Some(1280);
    let c = link::change(5, &l);
    assert_eq!(c.index, 5);
    assert_eq!(c.mtu, Some(1280));
    assert_eq!(c.ifname, Some("dummy0".to_string()));
    l.ifname = None;
    l.mtu = None;
    let c = link::change(6, &l);
    assert_eq!((c.index, c.ifname, c.mtu), (6, None, None));
}

#[test]
fn address_of_wrong_family_is_refused() {
    let a = address_of(AF_INET, 64, v6_addr());
    assert_eq!(address::to_message(&a), Err(Error::FamilyMismatch));
    let b = address_of(AF_INET6, 64, v6_addr());
    let msg = address::to_message(&b).unwrap();
    assert_eq!(msg.nlas, vec![AddressAttr::Address(addr_to_octets(v6_addr()))]);
}

#[test]
fn address_local_is_encoded_from_its_own_field() {
    let mut a = address_of(AF_INET, 32, IpAddr::V4([10, 0, 0, 1]));
    a.local = Some(IpAddr::V4([10, 0, 0, 2]));
    a.label = Some("eth0:1".to_string());
    a.broadcast = Some(IpAddr::V4([10, 0, 0, 255]));
    let msg = address::to_message(&a).unwrap();
    assert_eq!(
        msg.header,
        AddressHeader { family: 2, prefix_len: 32, flags: 0, scope: 0, index: 3 }
    );
    assert_eq!(
        msg.nlas,
        vec![
            AddressAttr::Address(vec![10, 0, 0, 1]),
            AddressAttr::Local(vec![10, 0, 0, 2]),
            AddressAttr::Label("eth0:1".to_string()),
            AddressAttr::Broadcast(vec![10, 0, 0, 255]),
        ]
    );
}

#[test]
fn address_round_trip() {
    let mut a = address_of(AF_INET, 24, IpAddr::V4([10, 0, 0, 5]));
    a.local = Some(IpAddr::V4([10, 0, 0, 6]));
    a.label = Some("lbl".to_string());
    a.scope = 253;
    a.flags = 0x80;
    assert_eq!(address::from_message(&address::to_message(&a).unwrap()), Ok(a));
    let mut b = address_of(AF_INET6, 64, v6_addr());
    b.address = None;
    b.local = Some(v6_addr());
    assert_eq!(address::from_message(&address::to_message(&b).unwrap()), Ok(b));
}

#[test]
fn address_decoding_trusts_header_family() {
    let msg = AddressMessage {
        header: AddressHeader { family: AF_INET, prefix_len: 24, flags: 0, scope: 0, index: 1 },
        nlas: vec![AddressAttr::Unknown, AddressAttr::Address(addr_to_octets(v6_addr()))],
    };
    assert_eq!(address::from_message(&msg), Err(Error::FamilyMismatch));
    let msg = AddressMessage {
        header: AddressHeader { family: AF_INET, prefix_len: 24, flags: 0, scope: 0, index: 1 },
        nlas: vec![AddressAttr::Broadcast(vec![1, 2])],
    };
    assert_eq!(address::from_message(&msg), Err(Error::MalformedAddress));
}

#[test]
fn address_add_needs_a_value() {
    let mut a = address_of(AF_INET, 24, IpAddr::V4([10, 0, 0, 5]));
    let req = address::add(&a).unwrap();
    assert_eq!(req.address, IpAddr::V4([10, 0, 0, 5]));
    assert_eq!(req.message, address::to_message(&a).unwrap());
    a.address = None;
    assert_eq!(address::add(&a), Err(Error::MissingAddress));
    let wrong = address_of(AF_INET, 24, v6_addr());
    assert_eq!(address::add(&wrong), Err(Error::FamilyMismatch));
}

#[test]
fn added_address_is_listed_once_for_its_link() {
    let a = Address {
        family: 2,
        plen: 24,
        flags: 0,
        scope: 0,
        index: 7,
        address: Some(IpAddr::V4([10, 0, 0, 5])),
        local: None,
        label: None,
        broadcast: None,
    };
    let added = address::add(&a).unwrap().message;
    let lo = address::to_message(&address_of(AF_INET, 8, IpAddr::V4([127, 0, 0, 1]))).unwrap();
    let listed = address::get(&vec![lo, added], Some(7), None).unwrap();
    assert_eq!(listed.len(), 1);
    assert_eq!(listed[0].address, Some(IpAddr::V4([10, 0, 0, 5])));
    assert_eq!(listed[0].plen, 24);
}

#[test]
fn address_listing_filters_by_scope() {
    let mut host = address_of(AF_INET, 8, IpAddr::V4([127, 0, 0, 1]));
    host.scope = 254;
    let global = address_of(AF_INET, 24, IpAddr::V4([10, 0, 0, 5]));
    let msgs = vec![
        address::to_message(&host).unwrap(),
        address::to_message(&global).unwrap(),
    ];
    assert_eq!(address::get(&msgs, None, Some(0)).unwrap(), vec![global.clone()]);
    assert_eq!(address::get(&msgs, None, None).unwrap(), vec![host, global]);
    assert_eq!(address::get(&msgs, Some(99), None).unwrap(), vec![]);
}

#[test]
fn address_listing_fails_on_malformed_message() {
    let good = address::to_message(&address_of(AF_INET, 24, IpAddr::V4([10, 0, 0, 5]))).unwrap();
    let bad = AddressMessage {
        header: AddressHeader { family: AF_INET, prefix_len: 24, flags: 0, scope: 0, index: 3 },
        nlas: vec![AddressAttr::Local(vec![1, 2, 3, 4, 5, 6])],
    };
    assert_eq!(address::get(&vec![good, bad], None, None), Err(Error::MalformedAddress));
}
