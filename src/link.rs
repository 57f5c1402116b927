//! Links (network interfaces): the entity, its netlink message shape, and
//! the codec between the two.
use vstd::prelude::*;

use crate::Error;

verus! {

/// The kinds of link this layer can create; `Other` stands for every kind
/// the kernel may report that is not listed here.
#[derive(Debug, Clone, Copy, PartialEq, Eq, Structural)]
pub enum Kind {
    Dummy,
    Ifb,
    Bridge,
    Tun,
    Vrf,
    Wireguard,
    Other,
}

/// A link kind as netlink names it in the `IFLA_INFO_KIND` attribute.
#[derive(Debug, Clone, PartialEq, Eq)]
pub enum InfoKind {
    Dummy,
    Ifb,
    Bridge,
    Tun,
    Nlmon,
    Vlan,
    Veth,
    Vxlan,
    Bond,
    IpVlan,
    MacVlan,
    MacVtap,
    GreTap,
    GreTap6,
    IpTun,
    SitTun,
    GreTun,
    GreTun6,
    Vti,
    Vrf,
    Gtp,
    Ipoib,
    Wireguard,
    Xfrm,
    MacSec,
    Other(String),
}

/// The entity kind that a wire kind stands for.
pub open spec fn kind_of_info(k: InfoKind) -> Kind {
    match k {
        InfoKind::Dummy => Kind::Dummy,
        InfoKind::Ifb => Kind::Ifb,
        InfoKind::Bridge => Kind::Bridge,
        InfoKind::Tun => Kind::Tun,
        InfoKind::Vrf => Kind::Vrf,
        InfoKind::Wireguard => Kind::Wireguard,
        _ => Kind::Other,
    }
}

/// The wire kind of an entity kind; the catch-all has none.
pub open spec fn info_of_kind(k: Kind) -> Result<InfoKind, Error> {
    match k {
        Kind::Dummy => Ok(InfoKind::Dummy),
        Kind::Ifb => Ok(InfoKind::Ifb),
        Kind::Bridge => Ok(InfoKind::Bridge),
        Kind::Tun => Ok(InfoKind::Tun),
        Kind::Vrf => Ok(InfoKind::Vrf),
        Kind::Wireguard => Ok(InfoKind::Wireguard),
        Kind::Other => Err(Error::UnsupportedKind),
    }
}

impl Kind {
    /// The kind that a wire kind reports; unlisted kinds become `Other`.
    pub fn from_info(kind: &InfoKind) -> (r: Kind)
        ensures
            r == kind_of_info(*kind),
    {
        match kind {
            InfoKind::Dummy => Kind::Dummy,
            InfoKind::Ifb => Kind::Ifb,
            InfoKind::Bridge => Kind::Bridge,
            InfoKind::Tun => Kind::Tun,
            InfoKind::Vrf => Kind::Vrf,
            InfoKind::Wireguard => Kind::Wireguard,
            _ => Kind::Other,
        }
    }

    /// The wire kind to emit for this kind; `Other` cannot be emitted.
    pub fn to_info(&self) -> (r: Result<InfoKind, Error>)
        ensures
            r == info_of_kind(*self),
    {
        match self {
            Kind::Dummy => Ok(InfoKind::Dummy),
            Kind::Ifb => Ok(InfoKind::Ifb),
            Kind::Bridge => Ok(InfoKind::Bridge),
            Kind::Tun => Ok(InfoKind::Tun),
            Kind::Vrf => Ok(InfoKind::Vrf),
            Kind::Wireguard => Ok(InfoKind::Wireguard),
            Kind::Other => Err(Error::UnsupportedKind),
        }
    }
}

/// A network interface.
#[derive(Debug, Clone, PartialEq, Eq)]
pub struct Link {
    pub family: u8,
    /// Kernel-assigned identity; zero when not yet assigned.
    pub index: u32,
    /// Link-layer type (Ethernet is 1).
    pub linklayer: u16,
    pub flags: u32,
    pub ifname: Option<String>,
    pub mtu: Option<u32>,
    pub kind: Option<Kind>,
}

/// The mathematical model of a [`Link`].
pub struct LinkView {
    pub family: u8,
    pub index: u32,
    pub linklayer: u16,
    pub flags: u32,
    pub ifname: Option<Seq<char>>,
    pub mtu: Option<u32>,
    pub kind: Option<Kind>,
}

impl View for Link {
    type V = LinkView;

    open spec fn view(&self) -> LinkView {
        LinkView {
            family: self.family,
            index: self.index,
            linklayer: self.linklayer,
            flags: self.flags,
            ifname: match self.ifname {
                Some(n) => Some(n@),
                None => None,
            },
            mtu: self.mtu,
            kind: self.kind,
        }
    }
}

/// The fixed header of a link message.
#[derive(Debug, Clone, Copy, PartialEq, Eq, Structural)]
pub struct LinkHeader {
    pub interface_family: u8,
    pub index: u32,
    pub link_layer_type: u16,
    pub flags: u32,
}

/// One entry of the nested `IFLA_LINKINFO` attribute.
#[derive(Debug, Clone, PartialEq, Eq)]
pub enum LinkInfo {
    Kind(InfoKind),
    /// Any entry this layer does not read.
    Unknown,
}

/// One attribute of a link message.
#[derive(Debug, Clone, PartialEq, Eq)]
pub enum LinkAttr {
    IfName(String),
    Mtu(u32),
    Info(Vec<LinkInfo>),
    /// Any attribute this layer does not read.
    Unknown,
}

/// The mathematical model of a [`LinkAttr`].
pub enum LinkAttrView {
    IfName(Seq<char>),
    Mtu(u32),
    Info(Seq<LinkInfo>),
    Unknown,
}

impl View for LinkAttr {
    type V = LinkAttrView;

    open spec fn view(&self) -> LinkAttrView {
        match self {
            LinkAttr::IfName(n) => LinkAttrView::IfName(n@),
            LinkAttr::Mtu(m) => LinkAttrView::Mtu(*m),
            LinkAttr::Info(v) => LinkAttrView::Info(v@),
            LinkAttr::Unknown => LinkAttrView::Unknown,
        }
    }
}

/// A link message: header and attribute list.
#[derive(Debug, Clone, PartialEq, Eq)]
pub struct LinkMessage {
    pub header: LinkHeader,
    pub nlas: Vec<LinkAttr>,
}

/// The mathematical model of a [`LinkMessage`].
pub struct LinkMessageView {
    pub header: LinkHeader,
    pub nlas: Seq<LinkAttrView>,
}

/// The models of a list of attributes.
pub open spec fn link_attrs_view(nlas: Seq<LinkAttr>) -> Seq<LinkAttrView> {
    nlas.map_values(|a: LinkAttr| a@)
}

impl View for LinkMessage {
    type V = LinkMessageView;

    open spec fn view(&self) -> LinkMessageView {
        LinkMessageView { header: self.header, nlas: link_attrs_view(self.nlas@) }
    }
}

/// The header that carries a link's fixed fields.
pub open spec fn link_header(l: LinkView) -> LinkHeader {
    LinkHeader {
        interface_family: l.family,
        index: l.index,
        link_layer_type: l.linklayer,
        flags: l.flags,
    }
}

/// The attributes emitted for a link: its name, then its MTU, then its kind,
/// each only when present; a kind without wire form fails the encoding.
pub open spec fn link_nlas(l: LinkView) -> Result<Seq<LinkAttrView>, Error> {
    let named = match l.ifname {
        Some(n) => seq![LinkAttrView::IfName(n)],
        None => Seq::<LinkAttrView>::empty(),
    };
    let sized = match l.mtu {
        Some(m) => named.push(LinkAttrView::Mtu(m)),
        None => named,
    };
    match l.kind {
        None => Ok(sized),
        Some(k) => match info_of_kind(k) {
            Ok(ik) => Ok(sized.push(LinkAttrView::Info(seq![LinkInfo::Kind(ik)]))),
            Err(e) => Err(e),
        },
    }
}

/// Encoding of a link into a message.
pub open spec fn encode_link(l: LinkView) -> Result<LinkMessageView, Error> {
    match link_nlas(l) {
        Ok(nlas) => Ok(LinkMessageView { header: link_header(l), nlas }),
        Err(e) => Err(e),
    }
}

/// The last kind named in a link-info list.
pub open spec fn last_info_kind(infos: Seq<LinkInfo>) -> Option<InfoKind>
    decreases infos.len(),
{
    if infos.len() == 0 {
        None
    } else {
        match infos.last() {
            LinkInfo::Kind(k) => Some(k),
            LinkInfo::Unknown => last_info_kind(infos.drop_last()),
        }
    }
}

/// The effect of one attribute on a link being decoded: a later attribute
/// of a kind overrides an earlier one, and unknown ones change nothing.
pub open spec fn apply_link_attr(l: LinkView, a: LinkAttrView) -> LinkView {
    match a {
        LinkAttrView::IfName(n) => LinkView { ifname: Some(n), ..l },
        LinkAttrView::Mtu(m) => LinkView { mtu: Some(m), ..l },
        LinkAttrView::Info(infos) => match last_info_kind(infos) {
            Some(k) => LinkView { kind: Some(kind_of_info(k)), ..l },
            None => l,
        },
        LinkAttrView::Unknown => l,
    }
}

/// A link after the attributes have been applied in order.
pub open spec fn apply_link_attrs(l: LinkView, nlas: Seq<LinkAttrView>) -> LinkView
    decreases nlas.len(),
{
    if nlas.len() == 0 {
        l
    } else {
        apply_link_attr(apply_link_attrs(l, nlas.drop_last()), nlas.last())
    }
}

/// The link that a header alone describes.
pub open spec fn link_of_header(h: LinkHeader) -> LinkView {
    LinkView {
        family: h.interface_family,
        index: h.index,
        linklayer: h.link_layer_type,
        flags: h.flags,
        ifname: None,
        mtu: None,
        kind: None,
    }
}

/// Decoding of a message into a link.
pub open spec fn decode_link(m: LinkMessageView) -> LinkView {
    apply_link_attrs(link_of_header(m.header), m.nlas)
}

/// Appends the attributes of `link` to `nlas`; on failure `nlas` is left as
/// it was.
pub fn push_nlas(link: &Link, nlas: &mut Vec<LinkAttr>) -> (r: Result<(), Error>)
    ensures
        match link_nlas(link@) {
            Ok(s) => r is Ok && link_attrs_view(final(nlas)@) == link_attrs_view(old(nlas)@) + s,
            Err(e) => r == Err::<(), Error>(e) && final(nlas)@ == old(nlas)@,
        },
{
    let info = match &link.kind {
        Some(kind) => Some(kind.to_info()?),
        None => None,
    };
    let ghost start = link_attrs_view(nlas@);
    let ghost named = match link@.ifname {
        Some(n) => seq![LinkAttrView::IfName(n)],
        None => Seq::<LinkAttrView>::empty(),
    };
    let ghost sized = match link@.mtu {
        Some(m) => named.push(LinkAttrView::Mtu(m)),
        None => named,
    };
    if let Some(ifname) = &link.ifname {
        nlas.push(LinkAttr::IfName(ifname.clone()));
    }
    assert(link_attrs_view(nlas@) =~= start + named);
    if let Some(mtu) = link.mtu {
        nlas.push(LinkAttr::Mtu(mtu));
    }
    assert(link_attrs_view(nlas@) =~= start + sized);
    if let Some(ik) = info {
        let mut infos: Vec<LinkInfo> = Vec::new();
        infos.push(LinkInfo::Kind(ik));
        assert(infos@ =~= seq![LinkInfo::Kind(ik)]);
        nlas.push(LinkAttr::Info(infos));
        assert(link_attrs_view(nlas@) =~= start + sized.push(LinkAttrView::Info(infos@)));
    }
    Ok(())
}

/// Encodes a link as a message: the header fields verbatim, and the
/// attributes of [`link_nlas`].
pub fn to_message(link: &Link) -> (r: Result<LinkMessage, Error>)
    ensures
        match encode_link(link@) {
            Ok(m) => r matches Ok(msg) && msg@ == m,
            Err(e) => r == Err::<LinkMessage, Error>(e),
        },
{
    let mut nlas: Vec<LinkAttr> = Vec::new();
    push_nlas(link, &mut nlas)?;
    assert(link_attrs_view(Seq::<LinkAttr>::empty()) =~= Seq::<LinkAttrView>::empty());
    let header = LinkHeader {
        interface_family: link.family,
        index: link.index,
        link_layer_type: link.linklayer,
        flags: link.flags,
    };
    let msg = LinkMessage { header, nlas };
    proof {
        let s = link_nlas(link@)->Ok_0;
        assert(msg@.nlas =~= Seq::<LinkAttrView>::empty() + s);
        assert(msg@.nlas =~= s);
    }
    Ok(msg)
}

/// Decodes a message into a link; attributes this layer does not read are
/// ignored.
pub fn from_message(msg: &LinkMessage) -> (r: Link)
    ensures
        r@ == decode_link(msg@),
{
    let mut link = Link {
        family: msg.header.interface_family,
        index: msg.header.index,
        linklayer: msg.header.link_layer_type,
        flags: msg.header.flags,
        ifname: None,
        mtu: None,
        kind: None,
    };
    let ghost nlas = msg@.nlas;
    let n = msg.nlas.len();
    let mut i: usize = 0;
    assert(nlas.take(0) =~= Seq::<LinkAttrView>::empty());
    while i < n
        invariant
            n == msg.nlas@.len(),
            nlas == msg@.nlas,
            i <= n,
            link@ == apply_link_attrs(link_of_header(msg.header), nlas.take(i as int)),
        decreases n - i,
    {
        let ghost before = link@;
        match &msg.nlas[i] {
            LinkAttr::IfName(name) => {
                link.ifname = Some(name.clone());
            },
            LinkAttr::Mtu(mtu) => {
                link.mtu = Some(*mtu);
            },
            LinkAttr::Info(infos) => {
                let m = infos.len();
                let mut j: usize = 0;
                assert(infos@.take(0) =~= Seq::<LinkInfo>::empty());
                while j < m
                    invariant
                        m == infos@.len(),
                        j <= m,
                        link@ == match last_info_kind(infos@.take(j as int)) {
                            Some(k) => LinkView { kind: Some(kind_of_info(k)), ..before },
                            None => before,
                        },
                    decreases m - j,
                {
                    if let LinkInfo::Kind(k) = &infos[j] {
                        link.kind = Some(Kind::from_info(k));
                    }
                    j = j + 1;
                    assert(infos@.take(j as int).drop_last() =~= infos@.take(j - 1));
                }
                assert(infos@.take(m as int) =~= infos@);
            },
            LinkAttr::Unknown => {},
        }
        i = i + 1;
        assert(nlas.take(i as int).drop_last() =~= nlas.take(i - 1));
    }
    assert(nlas.take(n as int) =~= nlas);
    link
}

/// The links of a dump: each message decoded, in the order the kernel gave.
pub fn get(msgs: &Vec<LinkMessage>) -> (r: Vec<Link>)
    ensures
        r@.len() == msgs@.len(),
        forall|i: int| 0 <= i < msgs@.len() ==> #[trigger] r@[i]@ == decode_link(msgs@[i]@),
{
    let mut out: Vec<Link> = Vec::new();
    let mut i: usize = 0;
    while i < msgs.len()
        invariant
            i <= msgs@.len(),
            out@.len() == i,
            forall|k: int| 0 <= k < i ==> #[trigger] out@[k]@ == decode_link(msgs@[k]@),
        decreases msgs@.len() - i,
    {
        out.push(from_message(&msgs[i]));
        i = i + 1;
    }
    out
}

/// Encoding then decoding a link gives back the same link, for every link
/// whose kind, if any, has a wire form.
pub proof fn lemma_link_round_trip(l: LinkView)
    requires
        l.kind != Some(Kind::Other),
    ensures
        encode_link(l) matches Ok(m) && decode_link(m) == l,
{
    reveal_with_fuel(apply_link_attrs, 4);
    let named = match l.ifname {
        Some(n) => seq![LinkAttrView::IfName(n)],
        None => Seq::<LinkAttrView>::empty(),
    };
    let sized = match l.mtu {
        Some(m) => named.push(LinkAttrView::Mtu(m)),
        None => named,
    };
    let base = link_of_header(link_header(l));
    if let Some(n) = l.ifname {
        assert(named.drop_last() =~= Seq::<LinkAttrView>::empty());
    }
    let after_named = LinkView { ifname: l.ifname, ..base };
    assert(apply_link_attrs(base, named) == after_named);
    if let Some(m) = l.mtu {
        assert(sized.drop_last() =~= named);
    }
    let after_sized = LinkView { mtu: l.mtu, ..after_named };
    assert(apply_link_attrs(base, sized) == after_sized);
    if let Some(k) = l.kind {
        let ik = info_of_kind(k)->Ok_0;
        let infos = seq![LinkInfo::Kind(ik)];
        assert(last_info_kind(infos) == Some(ik));
        let all = sized.push(LinkAttrView::Info(infos));
        assert(all.drop_last() =~= sized);
        assert(apply_link_attrs(base, all) == l);
    }
}

/// A partial update of one link: only the fields that are present are
/// applied, the others are left as the kernel has them.
#[derive(Debug, Clone, PartialEq, Eq)]
pub struct LinkChange {
    pub index: u32,
    pub ifname: Option<String>,
    pub mtu: Option<u32>,
}

/// The update that `payload` asks for on the link with the given index; of
/// the payload only the name and the MTU can be changed.
pub fn change(index: u32, payload: &Link) -> (r: LinkChange)
    ensures
        r.index == index,
        r.mtu == payload.mtu,
        match (r.ifname, payload.ifname) {
            (Some(a), Some(b)) => a@ == b@,
            (None, None) => true,
            _ => false,
        },
{
    let ifname = match &payload.ifname {
        Some(name) => Some(name.clone()),
        None => None,
    };
    LinkChange { index, ifname, mtu: payload.mtu }
}

} // verus!
