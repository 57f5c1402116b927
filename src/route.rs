//! Routing-table entries: the entity, its netlink message shape, the codec
//! between the two, the per-family dispatch of mutations and the merged,
//! table-filtered listing.
use vstd::prelude::*;

use crate::address::{fits_family, opt_is_address, opt_octets};
use crate::util::{addr_to_octets, decode_addr, decode_octets, IpAddr};
use crate::{Error, AF_INET, AF_INET6};

verus! {

/// The conventional main routing table.
pub const MAIN_TABLE: u8 = 254;

/// A forwarding entry.
#[derive(Debug, Clone, PartialEq, Eq)]
pub struct Route {
    pub family: u8,
    pub table: u8,
    pub scope: u8,
    /// Destination prefix: address and prefix length.
    pub dst: Option<(IpAddr, u8)>,
    /// Source prefix: address and prefix length.
    pub src: Option<(IpAddr, u8)>,
    pub gateway: Option<IpAddr>,
    /// Outgoing interface index.
    pub dev: Option<u32>,
    /// Who installed the route.
    pub proto: u8,
    /// Preferred source address.
    pub prefsrc: Option<IpAddr>,
    /// Priority.
    pub metric: Option<u32>,
}

/// The mathematical model of a [`Route`]; address values are octet strings.
pub struct RouteView {
    pub family: u8,
    pub table: u8,
    pub scope: u8,
    pub dst: Option<(Seq<u8>, u8)>,
    pub src: Option<(Seq<u8>, u8)>,
    pub gateway: Option<Seq<u8>>,
    pub dev: Option<u32>,
    pub proto: u8,
    pub prefsrc: Option<Seq<u8>>,
    pub metric: Option<u32>,
}

/// The model of an optional prefix.
pub open spec fn opt_prefix(p: Option<(IpAddr, u8)>) -> Option<(Seq<u8>, u8)> {
    match p {
        Some((a, len)) => Some((a@, len)),
        None => None,
    }
}

impl View for Route {
    type V = RouteView;

    open spec fn view(&self) -> RouteView {
        RouteView {
            family: self.family,
            table: self.table,
            scope: self.scope,
            dst: opt_prefix(self.dst),
            src: opt_prefix(self.src),
            gateway: opt_octets(self.gateway),
            dev: self.dev,
            proto: self.proto,
            prefsrc: opt_octets(self.prefsrc),
            metric: self.metric,
        }
    }
}

/// The address part of an optional prefix.
pub open spec fn prefix_octets(p: Option<(Seq<u8>, u8)>) -> Option<Seq<u8>> {
    match p {
        Some((o, _)) => Some(o),
        None => None,
    }
}

/// The prefix length that a header carries for an optional prefix: zero
/// when it is absent.
pub open spec fn prefix_len(p: Option<(Seq<u8>, u8)>) -> u8 {
    match p {
        Some((_, len)) => len,
        None => 0,
    }
}

/// What every [`Route`] value satisfies: each address field is 4 or 16
/// octets long.
pub open spec fn route_wf(r: RouteView) -> bool {
    &&& opt_is_address(prefix_octets(r.dst))
    &&& opt_is_address(prefix_octets(r.src))
    &&& opt_is_address(r.gateway)
    &&& opt_is_address(r.prefsrc)
}

/// Every address-typed field present agrees with the route's family.
pub open spec fn route_consistent(r: RouteView) -> bool {
    &&& fits_family(r.family, prefix_octets(r.dst))
    &&& fits_family(r.family, prefix_octets(r.src))
    &&& fits_family(r.family, r.gateway)
    &&& fits_family(r.family, r.prefsrc)
}

/// The fixed header of a route message.
#[derive(Debug, Clone, Copy, PartialEq, Eq, Structural)]
pub struct RouteHeader {
    pub address_family: u8,
    pub destination_prefix_length: u8,
    pub source_prefix_length: u8,
    pub table: u8,
    pub protocol: u8,
    pub scope: u8,
}

/// One attribute of a route message.
#[derive(Debug, Clone, PartialEq, Eq)]
pub enum RouteAttr {
    Destination(Vec<u8>),
    Source(Vec<u8>),
    Gateway(Vec<u8>),
    Oif(u32),
    PrefSource(Vec<u8>),
    Priority(u32),
    /// Any attribute this layer does not read.
    Unknown,
}

/// The mathematical model of a [`RouteAttr`].
pub enum RouteAttrView {
    Destination(Seq<u8>),
    Source(Seq<u8>),
    Gateway(Seq<u8>),
    Oif(u32),
    PrefSource(Seq<u8>),
    Priority(u32),
    Unknown,
}

impl View for RouteAttr {
    type V = RouteAttrView;

    open spec fn view(&self) -> RouteAttrView {
        match self {
            RouteAttr::Destination(o) => RouteAttrView::Destination(o@),
            RouteAttr::Source(o) => RouteAttrView::Source(o@),
            RouteAttr::Gateway(o) => RouteAttrView::Gateway(o@),
            RouteAttr::Oif(i) => RouteAttrView::Oif(*i),
            RouteAttr::PrefSource(o) => RouteAttrView::PrefSource(o@),
            RouteAttr::Priority(p) => RouteAttrView::Priority(*p),
            RouteAttr::Unknown => RouteAttrView::Unknown,
        }
    }
}

/// A route message: header and attribute list.
#[derive(Debug, Clone, PartialEq, Eq)]
pub struct RouteMessage {
    pub header: RouteHeader,
    pub nlas: Vec<RouteAttr>,
}

/// The mathematical model of a [`RouteMessage`].
pub struct RouteMessageView {
    pub header: RouteHeader,
    pub nlas: Seq<RouteAttrView>,
}

/// The models of a list of attributes.
pub open spec fn route_attrs_view(nlas: Seq<RouteAttr>) -> Seq<RouteAttrView> {
    nlas.map_values(|a: RouteAttr| a@)
}

impl View for RouteMessage {
    type V = RouteMessageView;

    open spec fn view(&self) -> RouteMessageView {
        RouteMessageView { header: self.header, nlas: route_attrs_view(self.nlas@) }
    }
}

/// The header of a route: its fixed fields, and the prefix length of each
/// prefix, zero where the prefix is absent.
pub open spec fn route_header(r: RouteView) -> RouteHeader {
    RouteHeader {
        address_family: r.family,
        destination_prefix_length: prefix_len(r.dst),
        source_prefix_length: prefix_len(r.src),
        table: r.table,
        protocol: r.proto,
        scope: r.scope,
    }
}

/// The attributes emitted for a route, each only when its field is present:
/// destination, source, gateway, outgoing interface, preferred source,
/// priority.
pub open spec fn route_nlas(r: RouteView) -> Seq<RouteAttrView> {
    let s0 = match r.dst {
        Some((o, _)) => seq![RouteAttrView::Destination(o)],
        None => Seq::<RouteAttrView>::empty(),
    };
    let s1 = match r.src {
        Some((o, _)) => s0.push(RouteAttrView::Source(o)),
        None => s0,
    };
    let s2 = match r.gateway {
        Some(o) => s1.push(RouteAttrView::Gateway(o)),
        None => s1,
    };
    let s3 = match r.dev {
        Some(i) => s2.push(RouteAttrView::Oif(i)),
        None => s2,
    };
    let s4 = match r.prefsrc {
        Some(o) => s3.push(RouteAttrView::PrefSource(o)),
        None => s3,
    };
    match r.metric {
        Some(p) => s4.push(RouteAttrView::Priority(p)),
        None => s4,
    }
}

/// Encoding of a route into a message; an address value of the other family
/// is refused.
pub open spec fn encode_route(r: RouteView) -> Result<RouteMessageView, Error> {
    if !route_consistent(r) {
        Err(Error::FamilyMismatch)
    } else {
        Ok(RouteMessageView { header: route_header(r), nlas: route_nlas(r) })
    }
}

/// The effect of one attribute on a route being decoded: the first
/// attribute of a kind gives the field, later ones are ignored; address
/// values are read under the header's family, with the prefix lengths of
/// the header; unknown attributes change nothing.
pub open spec fn apply_route_attr(r: RouteView, h: RouteHeader, a: RouteAttrView) -> Result<
    RouteView,
    Error,
> {
    match a {
        RouteAttrView::Destination(o) => if r.dst is Some {
            Ok(r)
        } else {
            match decode_octets(o, r.family) {
                Ok(x) => Ok(RouteView { dst: Some((x, h.destination_prefix_length)), ..r }),
                Err(e) => Err(e),
            }
        },
        RouteAttrView::Source(o) => if r.src is Some {
            Ok(r)
        } else {
            match decode_octets(o, r.family) {
                Ok(x) => Ok(RouteView { src: Some((x, h.source_prefix_length)), ..r }),
                Err(e) => Err(e),
            }
        },
        RouteAttrView::Gateway(o) => if r.gateway is Some {
            Ok(r)
        } else {
            match decode_octets(o, r.family) {
                Ok(x) => Ok(RouteView { gateway: Some(x), ..r }),
                Err(e) => Err(e),
            }
        },
        RouteAttrView::Oif(i) => Ok(
            if r.dev is Some {
                r
            } else {
                RouteView { dev: Some(i), ..r }
            },
        ),
        RouteAttrView::PrefSource(o) => if r.prefsrc is Some {
            Ok(r)
        } else {
            match decode_octets(o, r.family) {
                Ok(x) => Ok(RouteView { prefsrc: Some(x), ..r }),
                Err(e) => Err(e),
            }
        },
        RouteAttrView::Priority(p) => Ok(
            if r.metric is Some {
                r
            } else {
                RouteView { metric: Some(p), ..r }
            },
        ),
        RouteAttrView::Unknown => Ok(r),
    }
}

/// A route after the attributes have been applied in order; the first
/// failure stops the decoding.
pub open spec fn apply_route_attrs(r: RouteView, h: RouteHeader, nlas: Seq<RouteAttrView>) -> Result<
    RouteView,
    Error,
>
    decreases nlas.len(),
{
    if nlas.len() == 0 {
        Ok(r)
    } else {
        match apply_route_attrs(r, h, nlas.drop_last()) {
            Ok(b) => apply_route_attr(b, h, nlas.last()),
            Err(e) => Err(e),
        }
    }
}

/// The route that a header alone describes.
pub open spec fn route_of_header(h: RouteHeader) -> RouteView {
    RouteView {
        family: h.address_family,
        table: h.table,
        scope: h.scope,
        dst: None,
        src: None,
        gateway: None,
        dev: None,
        proto: h.protocol,
        prefsrc: None,
        metric: None,
    }
}

/// Decoding of a message into a route.
pub open spec fn decode_route(m: RouteMessageView) -> Result<RouteView, Error> {
    apply_route_attrs(route_of_header(m.header), m.header, m.nlas)
}

/// Once decoding has failed on a prefix of the attributes, it fails the
/// same way on the whole list.
proof fn lemma_route_failure_sticks(
    r: RouteView,
    h: RouteHeader,
    nlas: Seq<RouteAttrView>,
    i: int,
    e: Error,
)
    requires
        0 <= i <= nlas.len(),
        apply_route_attrs(r, h, nlas.take(i)) == Err::<RouteView, Error>(e),
    ensures
        apply_route_attrs(r, h, nlas) == Err::<RouteView, Error>(e),
    decreases nlas.len() - i,
{
    if i == nlas.len() {
        assert(nlas.take(i) =~= nlas);
    } else {
        assert(nlas.take(i + 1).drop_last() =~= nlas.take(i));
        lemma_route_failure_sticks(r, h, nlas, i + 1, e);
    }
}

/// Whether an optional address value agrees with `family`.
fn fits(family: u8, addr: Option<IpAddr>) -> (r: bool)
    ensures
        r == fits_family(family, opt_octets(addr)),
{
    match addr {
        Some(a) => a.family() == family,
        None => true,
    }
}

/// The address part of an optional prefix.
fn prefix_addr(p: Option<(IpAddr, u8)>) -> (r: Option<IpAddr>)
    ensures
        opt_octets(r) == prefix_octets(opt_prefix(p)),
{
    match p {
        Some((a, _)) => Some(a),
        None => None,
    }
}

/// Encodes a route as a message. Each prefix is emitted as a pair, its
/// length in the header and its address as an attribute, or not at all; an
/// address value of the other family fails the encoding.
pub fn to_message(route: &Route) -> (r: Result<RouteMessage, Error>)
    ensures
        match encode_route(route@) {
            Ok(m) => r matches Ok(msg) && msg@ == m,
            Err(e) => r == Err::<RouteMessage, Error>(e),
        },
{
    let family = route.family;
    if !(fits(family, prefix_addr(route.dst)) && fits(family, prefix_addr(route.src)) && fits(
        family,
        route.gateway,
    ) && fits(family, route.prefsrc)) {
        return Err(Error::FamilyMismatch);
    }
    let ghost v = route@;
    let mut header = RouteHeader {
        address_family: family,
        destination_prefix_length: 0,
        source_prefix_length: 0,
        table: route.table,
        protocol: route.proto,
        scope: route.scope,
    };
    let mut nlas: Vec<RouteAttr> = Vec::new();
    let ghost s0 = match v.dst {
        Some((o, _)) => seq![RouteAttrView::Destination(o)],
        None => Seq::<RouteAttrView>::empty(),
    };
    let ghost s1 = match v.src {
        Some((o, _)) => s0.push(RouteAttrView::Source(o)),
        None => s0,
    };
    let ghost s2 = match v.gateway {
        Some(o) => s1.push(RouteAttrView::Gateway(o)),
        None => s1,
    };
    let ghost s3 = match v.dev {
        Some(i) => s2.push(RouteAttrView::Oif(i)),
        None => s2,
    };
    let ghost s4 = match v.prefsrc {
        Some(o) => s3.push(RouteAttrView::PrefSource(o)),
        None => s3,
    };
    if let Some((dst, len)) = route.dst {
        header.destination_prefix_length = len;
        nlas.push(RouteAttr::Destination(addr_to_octets(dst)));
    }
    assert(route_attrs_view(nlas@) =~= s0);
    if let Some((src, len)) = route.src {
        header.source_prefix_length = len;
        nlas.push(RouteAttr::Source(addr_to_octets(src)));
    }
    assert(route_attrs_view(nlas@) =~= s1);
    if let Some(gateway) = route.gateway {
        nlas.push(RouteAttr::Gateway(addr_to_octets(gateway)));
    }
    assert(route_attrs_view(nlas@) =~= s2);
    if let Some(dev) = route.dev {
        nlas.push(RouteAttr::Oif(dev));
    }
    assert(route_attrs_view(nlas@) =~= s3);
    if let Some(prefsrc) = route.prefsrc {
        nlas.push(RouteAttr::PrefSource(addr_to_octets(prefsrc)));
    }
    assert(route_attrs_view(nlas@) =~= s4);
    if let Some(metric) = route.metric {
        nlas.push(RouteAttr::Priority(metric));
    }
    assert(route_attrs_view(nlas@) =~= route_nlas(v));
    Ok(RouteMessage { header, nlas })
}

/// Decodes a message into a route. The first attribute of each kind gives
/// its field, prefixes taking their lengths from the header; every address
/// value is read under the header's family, and one that is malformed or of
/// the other family fails the decoding. Attributes this layer does not read
/// are ignored.
pub fn from_message(msg: &RouteMessage) -> (r: Result<Route, Error>)
    ensures
        match decode_route(msg@) {
            Ok(x) => r matches Ok(route) && route@ == x,
            Err(e) => r == Err::<Route, Error>(e),
        },
{
    let h = msg.header;
    let family = h.address_family;
    let mut route = Route {
        family,
        table: h.table,
        scope: h.scope,
        dst: None,
        src: None,
        gateway: None,
        dev: None,
        proto: h.protocol,
        prefsrc: None,
        metric: None,
    };
    let ghost base = route_of_header(h);
    let ghost nlas = msg@.nlas;
    let n = msg.nlas.len();
    let mut i: usize = 0;
    assert(nlas.take(0) =~= Seq::<RouteAttrView>::empty());
    while i < n
        invariant
            n == msg.nlas@.len(),
            nlas == msg@.nlas,
            h == msg.header,
            base == route_of_header(h),
            family == h.address_family,
            i <= n,
            apply_route_attrs(base, h, nlas.take(i as int)) == Ok::<RouteView, Error>(route@),
            route@.family == family,
        decreases n - i,
    {
        assert(nlas.take(i + 1).drop_last() =~= nlas.take(i as int));
        let step: Result<(), Error> = match &msg.nlas[i] {
            RouteAttr::Destination(o) => if route.dst.is_none() {
                match decode_addr(o.as_slice(), family) {
                    Ok(a) => {
                        route.dst = Some((a, h.destination_prefix_length));
                        Ok(())
                    },
                    Err(e) => Err(e),
                }
            } else {
                Ok(())
            },
            RouteAttr::Source(o) => if route.src.is_none() {
                match decode_addr(o.as_slice(), family) {
                    Ok(a) => {
                        route.src = Some((a, h.source_prefix_length));
                        Ok(())
                    },
                    Err(e) => Err(e),
                }
            } else {
                Ok(())
            },
            RouteAttr::Gateway(o) => if route.gateway.is_none() {
                match decode_addr(o.as_slice(), family) {
                    Ok(a) => {
                        route.gateway = Some(a);
                        Ok(())
                    },
                    Err(e) => Err(e),
                }
            } else {
                Ok(())
            },
            RouteAttr::Oif(dev) => {
                if route.dev.is_none() {
                    route.dev = Some(*dev);
                }
                Ok(())
            },
            RouteAttr::PrefSource(o) => if route.prefsrc.is_none() {
                match decode_addr(o.as_slice(), family) {
                    Ok(a) => {
                        route.prefsrc = Some(a);
                        Ok(())
                    },
                    Err(e) => Err(e),
                }
            } else {
                Ok(())
            },
            RouteAttr::Priority(metric) => {
                if route.metric.is_none() {
                    route.metric = Some(*metric);
                }
                Ok(())
            },
            RouteAttr::Unknown => Ok(()),
        };
        if let Err(e) = step {
            proof {
                lemma_route_failure_sticks(base, h, nlas, i + 1, e);
            }
            return Err(e);
        }
        i = i + 1;
    }
    assert(nlas.take(n as int) =~= nlas);
    Ok(route)
}

/// The kernel request variant through which a route mutation is submitted.
#[derive(Debug, Clone, Copy, PartialEq, Eq, Structural)]
pub enum IpVersion {
    V4,
    V6,
}

/// What an add request needs: the submission path and the message.
#[derive(Debug, Clone, PartialEq, Eq)]
pub struct RouteAdd {
    pub version: IpVersion,
    pub message: RouteMessage,
}

/// The submission path of a family, if it has one.
pub open spec fn version_of_family(family: u8) -> Option<IpVersion> {
    if family == AF_INET {
        Some(IpVersion::V4)
    } else if family == AF_INET6 {
        Some(IpVersion::V6)
    } else {
        None
    }
}

/// Builds the request that adds `route`: IPv4 routes go through the IPv4
/// path and IPv6 routes through the IPv6 path; any other family fails before
/// a message is built.
pub fn add(route: &Route) -> (r: Result<RouteAdd, Error>)
    ensures
        version_of_family(route.family) is None ==> r == Err::<RouteAdd, Error>(
            Error::UnsupportedFamily,
        ),
        version_of_family(route.family) matches Some(v) ==> match encode_route(route@) {
            Ok(m) => r matches Ok(req) && req.version == v && req.message@ == m,
            Err(e) => r == Err::<RouteAdd, Error>(e),
        },
{
    let version = if route.family == AF_INET {
        IpVersion::V4
    } else if route.family == AF_INET6 {
        IpVersion::V6
    } else {
        return Err(Error::UnsupportedFamily);
    };
    let message = to_message(route)?;
    Ok(RouteAdd { version, message })
}

/// Whether a listed route passes the table filter; `None` keeps all tables.
pub open spec fn table_selected(r: RouteView, table: Option<u8>) -> bool {
    table matches Some(t) ==> r.table == t
}

/// The routes of one family's dump: each message decoded in order, those
/// of the wanted table kept; the first message that fails to decode fails
/// the list.
pub open spec fn select_routes(ms: Seq<RouteMessageView>, table: Option<u8>) -> Result<
    Seq<RouteView>,
    Error,
>
    decreases ms.len(),
{
    if ms.len() == 0 {
        Ok(Seq::empty())
    } else {
        match select_routes(ms.drop_last(), table) {
            Ok(s) => match decode_route(ms.last()) {
                Ok(r) => Ok(
                    if table_selected(r, table) {
                        s.push(r)
                    } else {
                        s
                    },
                ),
                Err(e) => Err(e),
            },
            Err(e) => Err(e),
        }
    }
}

/// The listing over both families: the IPv4 routes, then the IPv6 routes.
pub open spec fn list_routes(
    v4: Seq<RouteMessageView>,
    v6: Seq<RouteMessageView>,
    table: Option<u8>,
) -> Result<Seq<RouteView>, Error> {
    match select_routes(v4, table) {
        Ok(a) => match select_routes(v6, table) {
            Ok(b) => Ok(a + b),
            Err(e) => Err(e),
        },
        Err(e) => Err(e),
    }
}

/// The models of a list of routes.
pub open spec fn routes_view(v: Seq<Route>) -> Seq<RouteView> {
    v.map_values(|r: Route| r@)
}

/// The models of a list of messages.
pub open spec fn route_messages_view(v: Seq<RouteMessage>) -> Seq<RouteMessageView> {
    v.map_values(|m: RouteMessage| m@)
}

proof fn lemma_selection_failure_sticks(
    ms: Seq<RouteMessageView>,
    table: Option<u8>,
    i: int,
    e: Error,
)
    requires
        0 <= i <= ms.len(),
        select_routes(ms.take(i), table) == Err::<Seq<RouteView>, Error>(e),
    ensures
        select_routes(ms, table) == Err::<Seq<RouteView>, Error>(e),
    decreases ms.len() - i,
{
    if i == ms.len() {
        assert(ms.take(i) =~= ms);
    } else {
        assert(ms.take(i + 1).drop_last() =~= ms.take(i));
        lemma_selection_failure_sticks(ms, table, i + 1, e);
    }
}

/// Decodes one family's dump onto the end of `out`, keeping the routes of
/// the wanted table.
fn select_into(msgs: &Vec<RouteMessage>, table: Option<u8>, out: &mut Vec<Route>) -> (r: Result<
    (),
    Error,
>)
    ensures
        match select_routes(route_messages_view(msgs@), table) {
            Ok(s) => r is Ok && routes_view(final(out)@) == routes_view(old(out)@) + s,
            Err(e) => r == Err::<(), Error>(e),
        },
{
    let ghost ms = route_messages_view(msgs@);
    let ghost start = routes_view(out@);
    let mut i: usize = 0;
    assert(ms.take(0) =~= Seq::<RouteMessageView>::empty());
    assert(routes_view(out@) =~= start + Seq::<RouteView>::empty());
    while i < msgs.len()
        invariant
            ms == route_messages_view(msgs@),
            i <= msgs@.len(),
            select_routes(ms.take(i as int), table) matches Ok(s) && routes_view(out@) == start
                + s,
        decreases msgs@.len() - i,
    {
        assert(ms.take(i + 1).drop_last() =~= ms.take(i as int));
        assert(ms.take(i + 1).last() == msgs@[i as int]@);
        let ghost sel = select_routes(ms.take(i as int), table)->Ok_0;
        match from_message(&msgs[i]) {
            Ok(route) => {
                let keep = match table {
                    Some(t) => route.table == t,
                    None => true,
                };
                if keep {
                    let ghost prev = routes_view(out@);
                    out.push(route);
                    assert(routes_view(out@) =~= prev.push(route@));
                    assert(routes_view(out@) =~= start + sel.push(route@));
                }
            },
            Err(e) => {
                proof {
                    lemma_selection_failure_sticks(ms, table, i + 1, e);
                }
                return Err(e);
            },
        }
        i = i + 1;
    }
    assert(ms.take(msgs@.len() as int) =~= ms);
    Ok(())
}

/// The routes of the two dumps, those of `table` only when one is given:
/// every IPv4 route before every IPv6 route, each family in dump order.
pub fn list(v4: &Vec<RouteMessage>, v6: &Vec<RouteMessage>, table: Option<u8>) -> (r: Result<
    Vec<Route>,
    Error,
>)
    ensures
        match list_routes(route_messages_view(v4@), route_messages_view(v6@), table) {
            Ok(s) => r matches Ok(v) && routes_view(v@) == s,
            Err(e) => r == Err::<Vec<Route>, Error>(e),
        },
{
    let mut out: Vec<Route> = Vec::new();
    assert(routes_view(out@) =~= Seq::<RouteView>::empty());
    select_into(v4, table, &mut out)?;
    proof {
        let a = select_routes(route_messages_view(v4@), table)->Ok_0;
        assert(routes_view(out@) =~= a);
    }
    select_into(v6, table, &mut out)?;
    Ok(out)
}

/// The routes of the main table in the two dumps, IPv4 before IPv6.
pub fn get(v4: &Vec<RouteMessage>, v6: &Vec<RouteMessage>) -> (r: Result<Vec<Route>, Error>)
    ensures
        match list_routes(route_messages_view(v4@), route_messages_view(v6@), Some(MAIN_TABLE)) {
            Ok(s) => r matches Ok(v) && routes_view(v@) == s,
            Err(e) => r == Err::<Vec<Route>, Error>(e),
        },
{
    list(v4, v6, Some(MAIN_TABLE))
}

/// Encoding then decoding a route gives back the same route, for every
/// route whose address values agree with its family.
pub proof fn lemma_route_round_trip(r: RouteView)
    requires
        route_wf(r),
        route_consistent(r),
    ensures
        encode_route(r) matches Ok(m) && decode_route(m) == Ok::<RouteView, Error>(r),
{
    reveal_with_fuel(apply_route_attrs, 7);
    let h = route_header(r);
    let base = route_of_header(h);
    let s0 = match r.dst {
        Some((o, _)) => seq![RouteAttrView::Destination(o)],
        None => Seq::<RouteAttrView>::empty(),
    };
    let s1 = match r.src {
        Some((o, _)) => s0.push(RouteAttrView::Source(o)),
        None => s0,
    };
    let s2 = match r.gateway {
        Some(o) => s1.push(RouteAttrView::Gateway(o)),
        None => s1,
    };
    let s3 = match r.dev {
        Some(i) => s2.push(RouteAttrView::Oif(i)),
        None => s2,
    };
    let s4 = match r.prefsrc {
        Some(o) => s3.push(RouteAttrView::PrefSource(o)),
        None => s3,
    };
    let s5 = route_nlas(r);
    if r.dst is Some {
        assert(s0.drop_last() =~= Seq::<RouteAttrView>::empty());
    }
    let b0 = RouteView { dst: r.dst, ..base };
    assert(apply_route_attrs(base, h, s0) == Ok::<RouteView, Error>(b0));
    if r.src is Some {
        assert(s1.drop_last() =~= s0);
    }
    let b1 = RouteView { src: r.src, ..b0 };
    assert(apply_route_attrs(base, h, s1) == Ok::<RouteView, Error>(b1));
    if r.gateway is Some {
        assert(s2.drop_last() =~= s1);
    }
    let b2 = RouteView { gateway: r.gateway, ..b1 };
    assert(apply_route_attrs(base, h, s2) == Ok::<RouteView, Error>(b2));
    if r.dev is Some {
        assert(s3.drop_last() =~= s2);
    }
    let b3 = RouteView { dev: r.dev, ..b2 };
    assert(apply_route_attrs(base, h, s3) == Ok::<RouteView, Error>(b3));
    if r.prefsrc is Some {
        assert(s4.drop_last() =~= s3);
    }
    let b4 = RouteView { prefsrc: r.prefsrc, ..b3 };
    assert(apply_route_attrs(base, h, s4) == Ok::<RouteView, Error>(b4));
    if r.metric is Some {
        assert(s5.drop_last() =~= s4);
    }
    assert(apply_route_attrs(base, h, s5) == Ok::<RouteView, Error>(r));
}

/// Whether an attribute list holds a destination attribute.
pub open spec fn has_destination(nlas: Seq<RouteAttrView>) -> bool {
    exists|i: int| 0 <= i < nlas.len() && #[trigger] nlas[i] is Destination
}

/// Whether an attribute list holds a source attribute.
pub open spec fn has_source(nlas: Seq<RouteAttrView>) -> bool {
    exists|i: int| 0 <= i < nlas.len() && #[trigger] nlas[i] is Source
}

/// An encoded route carries each prefix as a pair: with a destination, the
/// header's destination prefix length is the destination's and a
/// destination attribute is present; without one, that length is zero and
/// no such attribute is emitted. The same holds of the source prefix.
pub proof fn lemma_prefix_pairing(r: RouteView)
    requires
        route_consistent(r),
    ensures
        encode_route(r) matches Ok(m) && {
            &&& r.dst matches Some((_, len)) ==> m.header.destination_prefix_length == len
            &&& r.dst is None ==> m.header.destination_prefix_length == 0
            &&& has_destination(m.nlas) <==> r.dst is Some
            &&& r.src matches Some((_, len)) ==> m.header.source_prefix_length == len
            &&& r.src is None ==> m.header.source_prefix_length == 0
            &&& has_source(m.nlas) <==> r.src is Some
        },
{
    let s0 = match r.dst {
        Some((o, _)) => seq![RouteAttrView::Destination(o)],
        None => Seq::<RouteAttrView>::empty(),
    };
    let s1 = match r.src {
        Some((o, _)) => s0.push(RouteAttrView::Source(o)),
        None => s0,
    };
    let s5 = route_nlas(r);
    // Only the first attribute can be a destination, and only the first
    // two a source.
    assert(s5.len() >= s1.len());
    assert(forall|i: int| 0 <= i < s1.len() ==> s5[i] == s1[i]);
    assert(forall|i: int| s1.len() <= i < s5.len() ==> !(s5[i] is Destination) && !(
    s5[i] is Source));
    if r.dst is Some {
        assert(s5[0] is Destination);
    }
    if r.src is Some {
        assert(s5[s0.len() as int] is Source);
    }
}

/// How many messages of a dump decode to `r` and pass the table filter.
pub open spec fn count_listed(ms: Seq<RouteMessageView>, table: Option<u8>, r: RouteView) -> nat
    decreases ms.len(),
{
    if ms.len() == 0 {
        0
    } else {
        count_listed(ms.drop_last(), table, r) + if decode_route(ms.last()) == Ok::<
            RouteView,
            Error,
        >(r) && table_selected(r, table) {
            1nat
        } else {
            0nat
        }
    }
}

/// A dump lists without failure exactly when each of its messages decodes.
proof fn lemma_select_ok(ms: Seq<RouteMessageView>, table: Option<u8>)
    ensures
        select_routes(ms, table) is Ok <==> forall|i: int|
            0 <= i < ms.len() ==> #[trigger] decode_route(ms[i]) is Ok,
    decreases ms.len(),
{
    if ms.len() > 0 {
        let d = ms.drop_last();
        lemma_select_ok(d, table);
        assert(forall|i: int| 0 <= i < d.len() ==> #[trigger] d[i] == ms[i]);
        if select_routes(ms, table) is Ok {
            assert forall|i: int| 0 <= i < ms.len() implies #[trigger] decode_route(ms[i]) is Ok by {
                if i < d.len() {
                    assert(d[i] == ms[i]);
                }
            }
        }
    }
}

/// Each route occurs in a listing as often as messages of the dump decode
/// to it and pass the filter.
proof fn lemma_select_counts(ms: Seq<RouteMessageView>, table: Option<u8>, r: RouteView)
    requires
        select_routes(ms, table) is Ok,
    ensures
        select_routes(ms, table)->Ok_0.to_multiset().count(r) == count_listed(ms, table, r),
    decreases ms.len(),
{
    broadcast use vstd::seq_lib::group_to_multiset_ensures, vstd::multiset::group_multiset_axioms;

    if ms.len() == 0 {
        assert(select_routes(ms, table)->Ok_0 =~= Seq::<RouteView>::empty());
    } else {
        lemma_select_counts(ms.drop_last(), table, r);
    }
}

/// Removing one message from a dump removes its share of the count.
proof fn lemma_count_remove(ms: Seq<RouteMessageView>, table: Option<u8>, r: RouteView, j: int)
    requires
        0 <= j < ms.len(),
    ensures
        count_listed(ms, table, r) == count_listed(ms.remove(j), table, r) + if decode_route(ms[j])
            == Ok::<RouteView, Error>(r) && table_selected(r, table) {
            1nat
        } else {
            0nat
        },
    decreases ms.len(),
{
    if j == ms.len() - 1 {
        assert(ms.remove(j) =~= ms.drop_last());
    } else {
        let d = ms.drop_last();
        lemma_count_remove(d, table, r, j);
        assert(d.remove(j) =~= ms.remove(j).drop_last());
        assert(ms.remove(j).last() == ms.last());
    }
}

/// Two dumps with the same messages, in any order, have the same counts.
proof fn lemma_count_permutation(
    a: Seq<RouteMessageView>,
    b: Seq<RouteMessageView>,
    table: Option<u8>,
    r: RouteView,
)
    requires
        a.to_multiset() == b.to_multiset(),
    ensures
        count_listed(a, table, r) == count_listed(b, table, r),
    decreases a.len(),
{
    broadcast use vstd::seq_lib::group_to_multiset_ensures, vstd::multiset::group_multiset_axioms;

    if a.len() == 0 {
        vstd::seq_lib::to_multiset_len(a);
        vstd::seq_lib::to_multiset_len(b);
    } else {
        let x = a.last();
        let d = a.drop_last();
        assert(d.push(x) =~= a);
        assert(a.to_multiset().count(x) > 0);
        assert(b.contains(x));
        let j = choose|j: int| 0 <= j < b.len() && b[j] == x;
        assert(b.remove(j).to_multiset() =~= d.to_multiset());
        lemma_count_permutation(d, b.remove(j), table, r);
        lemma_count_remove(b, table, r, j);
    }
}

/// Listing is stable: two dumps of one family that hold the same messages,
/// in any order, list without failure alike, and then list the same routes
/// up to order; so do two pairs of such dumps, IPv4 before IPv6.
pub proof fn lemma_list_stable(
    v4a: Seq<RouteMessageView>,
    v4b: Seq<RouteMessageView>,
    v6a: Seq<RouteMessageView>,
    v6b: Seq<RouteMessageView>,
    table: Option<u8>,
)
    requires
        v4a.to_multiset() == v4b.to_multiset(),
        v6a.to_multiset() == v6b.to_multiset(),
    ensures
        select_routes(v4a, table) is Ok <==> select_routes(v4b, table) is Ok,
        select_routes(v6a, table) is Ok <==> select_routes(v6b, table) is Ok,
        list_routes(v4a, v6a, table) is Ok <==> list_routes(v4b, v6b, table) is Ok,
        select_routes(v4a, table) is Ok ==> select_routes(v4a, table)->Ok_0.to_multiset()
            == select_routes(v4b, table)->Ok_0.to_multiset(),
        select_routes(v6a, table) is Ok ==> select_routes(v6a, table)->Ok_0.to_multiset()
            == select_routes(v6b, table)->Ok_0.to_multiset(),
{
    lemma_same_listing(v4a, v4b, table);
    lemma_same_listing(v6a, v6b, table);
}

/// One family's part of [`lemma_list_stable`].
proof fn lemma_same_listing(a: Seq<RouteMessageView>, b: Seq<RouteMessageView>, table: Option<u8>)
    requires
        a.to_multiset() == b.to_multiset(),
    ensures
        select_routes(a, table) is Ok <==> select_routes(b, table) is Ok,
        select_routes(a, table) is Ok ==> select_routes(a, table)->Ok_0.to_multiset()
            == select_routes(b, table)->Ok_0.to_multiset(),
{
    broadcast use vstd::seq_lib::group_to_multiset_ensures, vstd::multiset::group_multiset_axioms;

    lemma_select_ok(a, table);
    lemma_select_ok(b, table);
    assert forall|m: RouteMessageView| a.contains(m) <==> b.contains(m) by {
        vstd::seq_lib::to_multiset_contains(a, m);
        vstd::seq_lib::to_multiset_contains(b, m);
    }
    if select_routes(a, table) is Ok {
        assert forall|i: int| 0 <= i < b.len() implies #[trigger] decode_route(b[i]) is Ok by {
            assert(b.contains(b[i]));
            let k = choose|k: int| 0 <= k < a.len() && a[k] == b[i];
            assert(decode_route(a[k]) is Ok);
        }
        assert forall|r: RouteView|
            #[trigger] select_routes(a, table)->Ok_0.to_multiset().count(r)
                == select_routes(b, table)->Ok_0.to_multiset().count(r) by {
            lemma_select_counts(a, table, r);
            lemma_select_counts(b, table, r);
            lemma_count_permutation(a, b, table, r);
        }
        assert(select_routes(a, table)->Ok_0.to_multiset() =~= select_routes(b, table)->Ok_0.to_multiset());
    } else if select_routes(b, table) is Ok {
        assert forall|i: int| 0 <= i < a.len() implies #[trigger] decode_route(a[i]) is Ok by {
            assert(a.contains(a[i]));
            let k = choose|k: int| 0 <= k < b.len() && b[k] == a[i];
            assert(decode_route(b[k]) is Ok);
        }
    }
}

/// Every route of a listing passes the filter and is the decoding of a
/// message of the dump.
proof fn lemma_select_members(ms: Seq<RouteMessageView>, table: Option<u8>)
    requires
        select_routes(ms, table) is Ok,
    ensures
        forall|i: int|
            0 <= i < select_routes(ms, table)->Ok_0.len() ==> {
                let r = #[trigger] select_routes(ms, table)->Ok_0[i];
                &&& table_selected(r, table)
                &&& exists|j: int| 0 <= j < ms.len() && decode_route(ms[j]) == Ok::<RouteView, Error>(r)
            },
    decreases ms.len(),
{
    if ms.len() > 0 {
        let d = ms.drop_last();
        lemma_select_members(d, table);
        let prev = select_routes(d, table)->Ok_0;
        let cur = select_routes(ms, table)->Ok_0;
        assert forall|i: int| 0 <= i < cur.len() implies {
            let r = #[trigger] cur[i];
            &&& table_selected(r, table)
            &&& exists|j: int| 0 <= j < ms.len() && decode_route(ms[j]) == Ok::<RouteView, Error>(r)
        } by {
            if i < prev.len() {
                assert(cur[i] == prev[i]);
                let j = choose|j: int| 0 <= j < d.len() && decode_route(d[j]) == Ok::<RouteView, Error>(prev[i]);
                assert(ms[j] == d[j]);
            } else {
                assert(decode_route(ms[ms.len() - 1]) == Ok::<RouteView, Error>(cur[i]));
            }
        }
    }
}

/// A listing filtered by table holds only routes of that table, the routes
/// of the IPv4 dump first and then those of the IPv6 dump.
pub proof fn lemma_listing_by_table(
    v4: Seq<RouteMessageView>,
    v6: Seq<RouteMessageView>,
    t: u8,
)
    ensures
        list_routes(v4, v6, Some(t)) matches Ok(s) ==> {
            let k = select_routes(v4, Some(t))->Ok_0.len();
            &&& forall|i: int| 0 <= i < s.len() ==> (#[trigger] s[i]).table == t
            &&& forall|i: int|
                0 <= i < k ==> exists|j: int|
                    0 <= j < v4.len() && decode_route(v4[j]) == Ok::<RouteView, Error>(
                        #[trigger] s[i],
                    )
            &&& forall|i: int|
                k <= i < s.len() ==> exists|j: int|
                    0 <= j < v6.len() && decode_route(v6[j]) == Ok::<RouteView, Error>(
                        #[trigger] s[i],
                    )
        },
{
    if list_routes(v4, v6, Some(t)) is Ok {
        lemma_select_members(v4, Some(t));
        lemma_select_members(v6, Some(t));
        let a = select_routes(v4, Some(t))->Ok_0;
        let b = select_routes(v6, Some(t))->Ok_0;
        let s = a + b;
        assert forall|i: int| 0 <= i < s.len() implies (#[trigger] s[i]).table == t by {
            if i < a.len() {
                assert(s[i] == a[i]);
            } else {
                assert(s[i] == b[i - a.len()]);
            }
        }
        assert forall|i: int| 0 <= i < a.len() implies exists|j: int|
            0 <= j < v4.len() && decode_route(v4[j]) == Ok::<RouteView, Error>(#[trigger] s[i]) by {
            assert(s[i] == a[i]);
        }
        assert forall|i: int| a.len() <= i < s.len() implies exists|j: int|
            0 <= j < v6.len() && decode_route(v6[j]) == Ok::<RouteView, Error>(#[trigger] s[i]) by {
            assert(s[i] == b[i - a.len()]);
        }
    }
}

} // verus!
