//! IP addresses bound to interfaces: the entity, its netlink message shape,
//! the codec between the two, and the decisions around add and list.
use vstd::prelude::*;

use crate::util::{addr_to_octets, decode_addr, decode_octets, family_of_octets, is_address_length, IpAddr};
use crate::Error;

verus! {

/// An IP address bound to an interface.
#[derive(Debug, Clone, PartialEq, Eq)]
pub struct Address {
    pub family: u8,
    /// Prefix length: up to 32 for IPv4, up to 128 for IPv6.
    pub plen: u8,
    pub flags: u8,
    /// Zero is global scope.
    pub scope: u8,
    /// Index of the owning link.
    pub index: u32,
    pub address: Option<IpAddr>,
    /// Local end, for point-to-point peers.
    pub local: Option<IpAddr>,
    pub label: Option<String>,
    pub broadcast: Option<IpAddr>,
}

/// The mathematical model of an [`Address`]; address values are octet
/// strings.
pub struct AddressView {
    pub family: u8,
    pub plen: u8,
    pub flags: u8,
    pub scope: u8,
    pub index: u32,
    pub address: Option<Seq<u8>>,
    pub local: Option<Seq<u8>>,
    pub label: Option<Seq<char>>,
    pub broadcast: Option<Seq<u8>>,
}

/// The octets of an optional address.
pub open spec fn opt_octets(a: Option<IpAddr>) -> Option<Seq<u8>> {
    match a {
        Some(a) => Some(a@),
        None => None,
    }
}

impl View for Address {
    type V = AddressView;

    open spec fn view(&self) -> AddressView {
        AddressView {
            family: self.family,
            plen: self.plen,
            flags: self.flags,
            scope: self.scope,
            index: self.index,
            address: opt_octets(self.address),
            local: opt_octets(self.local),
            label: match self.label {
                Some(l) => Some(l@),
                None => None,
            },
            broadcast: opt_octets(self.broadcast),
        }
    }
}

/// An optional octet string is absent or of one of the address lengths.
pub open spec fn opt_is_address(o: Option<Seq<u8>>) -> bool {
    match o {
        Some(o) => is_address_length(o),
        None => true,
    }
}

/// What every [`Address`] value satisfies: each address field is 4 or 16
/// octets long.
pub open spec fn address_wf(a: AddressView) -> bool {
    opt_is_address(a.address) && opt_is_address(a.local) && opt_is_address(a.broadcast)
}

/// An optional address value agrees with the family.
pub open spec fn fits_family(family: u8, o: Option<Seq<u8>>) -> bool {
    match o {
        Some(o) => family_of_octets(o) == family,
        None => true,
    }
}

/// Every address-typed field present agrees with the address's family.
pub open spec fn address_consistent(a: AddressView) -> bool {
    fits_family(a.family, a.address) && fits_family(a.family, a.local) && fits_family(
        a.family,
        a.broadcast,
    )
}

/// The fixed header of an address message.
#[derive(Debug, Clone, Copy, PartialEq, Eq, Structural)]
pub struct AddressHeader {
    pub family: u8,
    pub prefix_len: u8,
    pub flags: u8,
    pub scope: u8,
    pub index: u32,
}

/// One attribute of an address message.
#[derive(Debug, Clone, PartialEq, Eq)]
pub enum AddressAttr {
    Address(Vec<u8>),
    Local(Vec<u8>),
    Label(String),
    Broadcast(Vec<u8>),
    /// Any attribute this layer does not read.
    Unknown,
}

/// The mathematical model of an [`AddressAttr`].
pub enum AddressAttrView {
    Address(Seq<u8>),
    Local(Seq<u8>),
    Label(Seq<char>),
    Broadcast(Seq<u8>),
    Unknown,
}

impl View for AddressAttr {
    type V = AddressAttrView;

    open spec fn view(&self) -> AddressAttrView {
        match self {
            AddressAttr::Address(o) => AddressAttrView::Address(o@),
            AddressAttr::Local(o) => AddressAttrView::Local(o@),
            AddressAttr::Label(l) => AddressAttrView::Label(l@),
            AddressAttr::Broadcast(o) => AddressAttrView::Broadcast(o@),
            AddressAttr::Unknown => AddressAttrView::Unknown,
        }
    }
}

/// An address message: header and attribute list.
#[derive(Debug, Clone, PartialEq, Eq)]
pub struct AddressMessage {
    pub header: AddressHeader,
    pub nlas: Vec<AddressAttr>,
}

/// The mathematical model of an [`AddressMessage`].
pub struct AddressMessageView {
    pub header: AddressHeader,
    pub nlas: Seq<AddressAttrView>,
}

/// The models of a list of attributes.
pub open spec fn address_attrs_view(nlas: Seq<AddressAttr>) -> Seq<AddressAttrView> {
    nlas.map_values(|a: AddressAttr| a@)
}

impl View for AddressMessage {
    type V = AddressMessageView;

    open spec fn view(&self) -> AddressMessageView {
        AddressMessageView { header: self.header, nlas: address_attrs_view(self.nlas@) }
    }
}

/// The header that carries an address's fixed fields.
pub open spec fn address_header(a: AddressView) -> AddressHeader {
    AddressHeader {
        family: a.family,
        prefix_len: a.plen,
        flags: a.flags,
        scope: a.scope,
        index: a.index,
    }
}

/// The attributes emitted for an address: the address, the local end, the
/// label and the broadcast address, each only when present.
pub open spec fn address_nlas(a: AddressView) -> Seq<AddressAttrView> {
    let s0 = match a.address {
        Some(o) => seq![AddressAttrView::Address(o)],
        None => Seq::<AddressAttrView>::empty(),
    };
    let s1 = match a.local {
        Some(o) => s0.push(AddressAttrView::Local(o)),
        None => s0,
    };
    let s2 = match a.label {
        Some(l) => s1.push(AddressAttrView::Label(l)),
        None => s1,
    };
    match a.broadcast {
        Some(o) => s2.push(AddressAttrView::Broadcast(o)),
        None => s2,
    }
}

/// Encoding of an address into a message; an address value of the other
/// family is refused.
pub open spec fn encode_address(a: AddressView) -> Result<AddressMessageView, Error> {
    if !address_consistent(a) {
        Err(Error::FamilyMismatch)
    } else {
        Ok(AddressMessageView { header: address_header(a), nlas: address_nlas(a) })
    }
}

/// The effect of one attribute on an address being decoded: address values
/// are read under the header's family, a later attribute of a kind
/// overrides an earlier one, and unknown ones change nothing.
pub open spec fn apply_address_attr(a: AddressView, attr: AddressAttrView) -> Result<
    AddressView,
    Error,
> {
    match attr {
        AddressAttrView::Address(o) => match decode_octets(o, a.family) {
            Ok(o) => Ok(AddressView { address: Some(o), ..a }),
            Err(e) => Err(e),
        },
        AddressAttrView::Local(o) => match decode_octets(o, a.family) {
            Ok(o) => Ok(AddressView { local: Some(o), ..a }),
            Err(e) => Err(e),
        },
        AddressAttrView::Label(l) => Ok(AddressView { label: Some(l), ..a }),
        AddressAttrView::Broadcast(o) => match decode_octets(o, a.family) {
            Ok(o) => Ok(AddressView { broadcast: Some(o), ..a }),
            Err(e) => Err(e),
        },
        AddressAttrView::Unknown => Ok(a),
    }
}

/// An address after the attributes have been applied in order; the first
/// failure stops the decoding.
pub open spec fn apply_address_attrs(a: AddressView, nlas: Seq<AddressAttrView>) -> Result<
    AddressView,
    Error,
>
    decreases nlas.len(),
{
    if nlas.len() == 0 {
        Ok(a)
    } else {
        match apply_address_attrs(a, nlas.drop_last()) {
            Ok(b) => apply_address_attr(b, nlas.last()),
            Err(e) => Err(e),
        }
    }
}

/// The address that a header alone describes.
pub open spec fn address_of_header(h: AddressHeader) -> AddressView {
    AddressView {
        family: h.family,
        plen: h.prefix_len,
        flags: h.flags,
        scope: h.scope,
        index: h.index,
        address: None,
        local: None,
        label: None,
        broadcast: None,
    }
}

/// Decoding of a message into an address.
pub open spec fn decode_address(m: AddressMessageView) -> Result<AddressView, Error> {
    apply_address_attrs(address_of_header(m.header), m.nlas)
}

/// Once decoding has failed on a prefix of the attributes, it fails the
/// same way on the whole list.
proof fn lemma_address_failure_sticks(a: AddressView, nlas: Seq<AddressAttrView>, i: int, e: Error)
    requires
        0 <= i <= nlas.len(),
        apply_address_attrs(a, nlas.take(i)) == Err::<AddressView, Error>(e),
    ensures
        apply_address_attrs(a, nlas) == Err::<AddressView, Error>(e),
    decreases nlas.len() - i,
{
    if i == nlas.len() {
        assert(nlas.take(i) =~= nlas);
    } else {
        assert(nlas.take(i + 1).drop_last() =~= nlas.take(i));
        lemma_address_failure_sticks(a, nlas, i + 1, e);
    }
}

/// Whether an optional address value agrees with `family`.
fn fits(family: u8, addr: Option<IpAddr>) -> (r: bool)
    ensures
        r == fits_family(family, opt_octets(addr)),
{
    match addr {
        Some(a) => a.family() == family,
        None => true,
    }
}

/// Appends the attributes of `addr` to `nlas`. An address value whose
/// length disagrees with the family fails the whole call, and `nlas` is then
/// left as it was.
pub fn push_nlas(addr: &Address, nlas: &mut Vec<AddressAttr>) -> (r: Result<(), Error>)
    ensures
        address_consistent(addr@) ==> r is Ok && address_attrs_view(final(nlas)@)
            == address_attrs_view(old(nlas)@) + address_nlas(addr@),
        !address_consistent(addr@) ==> r == Err::<(), Error>(Error::FamilyMismatch)
            && final(nlas)@ == old(nlas)@,
{
    if !(fits(addr.family, addr.address) && fits(addr.family, addr.local) && fits(
        addr.family,
        addr.broadcast,
    )) {
        return Err(Error::FamilyMismatch);
    }
    let ghost a = addr@;
    let ghost start = address_attrs_view(nlas@);
    let ghost s0 = match a.address {
        Some(o) => seq![AddressAttrView::Address(o)],
        None => Seq::<AddressAttrView>::empty(),
    };
    let ghost s1 = match a.local {
        Some(o) => s0.push(AddressAttrView::Local(o)),
        None => s0,
    };
    let ghost s2 = match a.label {
        Some(l) => s1.push(AddressAttrView::Label(l)),
        None => s1,
    };
    if let Some(address) = addr.address {
        nlas.push(AddressAttr::Address(addr_to_octets(address)));
    }
    assert(address_attrs_view(nlas@) =~= start + s0);
    if let Some(local) = addr.local {
        nlas.push(AddressAttr::Local(addr_to_octets(local)));
    }
    assert(address_attrs_view(nlas@) =~= start + s1);
    if let Some(label) = &addr.label {
        nlas.push(AddressAttr::Label(label.clone()));
    }
    assert(address_attrs_view(nlas@) =~= start + s2);
    if let Some(broadcast) = addr.broadcast {
        nlas.push(AddressAttr::Broadcast(addr_to_octets(broadcast)));
    }
    assert(address_attrs_view(nlas@) =~= start + address_nlas(a));
    Ok(())
}

/// Encodes an address as a message: the header fields verbatim, and the
/// attributes of [`address_nlas`], once the family has been checked.
pub fn to_message(addr: &Address) -> (r: Result<AddressMessage, Error>)
    ensures
        match encode_address(addr@) {
            Ok(m) => r matches Ok(msg) && msg@ == m,
            Err(e) => r == Err::<AddressMessage, Error>(e),
        },
{
    let mut nlas: Vec<AddressAttr> = Vec::new();
    push_nlas(addr, &mut nlas)?;
    let header = AddressHeader {
        family: addr.family,
        prefix_len: addr.plen,
        flags: addr.flags,
        scope: addr.scope,
        index: addr.index,
    };
    let msg = AddressMessage { header, nlas };
    assert(msg@.nlas =~= Seq::<AddressAttrView>::empty() + address_nlas(addr@));
    assert(msg@.nlas =~= address_nlas(addr@));
    Ok(msg)
}

/// Decodes a message into an address. Every address value is read under
/// the header's family; one that is malformed or of the other family fails
/// the decoding. Attributes this layer does not read are ignored.
pub fn from_message(msg: &AddressMessage) -> (r: Result<Address, Error>)
    ensures
        match decode_address(msg@) {
            Ok(a) => r matches Ok(x) && x@ == a,
            Err(e) => r == Err::<Address, Error>(e),
        },
{
    let family = msg.header.family;
    let mut address = Address {
        family,
        plen: msg.header.prefix_len,
        flags: msg.header.flags,
        scope: msg.header.scope,
        index: msg.header.index,
        address: None,
        local: None,
        label: None,
        broadcast: None,
    };
    let ghost base = address_of_header(msg.header);
    let ghost nlas = msg@.nlas;
    let n = msg.nlas.len();
    let mut i: usize = 0;
    assert(nlas.take(0) =~= Seq::<AddressAttrView>::empty());
    while i < n
        invariant
            n == msg.nlas@.len(),
            nlas == msg@.nlas,
            base == address_of_header(msg.header),
            family == msg.header.family,
            i <= n,
            apply_address_attrs(base, nlas.take(i as int)) == Ok::<AddressView, Error>(address@),
            address@.family == family,
        decreases n - i,
    {
        assert(nlas.take(i + 1).drop_last() =~= nlas.take(i as int));
        let step = match &msg.nlas[i] {
            AddressAttr::Address(o) => match decode_addr(o.as_slice(), family) {
                Ok(a) => {
                    address.address = Some(a);
                    Ok(())
                },
                Err(e) => Err(e),
            },
            AddressAttr::Local(o) => match decode_addr(o.as_slice(), family) {
                Ok(a) => {
                    address.local = Some(a);
                    Ok(())
                },
                Err(e) => Err(e),
            },
            AddressAttr::Label(l) => {
                address.label = Some(l.clone());
                Ok(())
            },
            AddressAttr::Broadcast(o) => match decode_addr(o.as_slice(), family) {
                Ok(a) => {
                    address.broadcast = Some(a);
                    Ok(())
                },
                Err(e) => Err(e),
            },
            AddressAttr::Unknown => Ok(()),
        };
        if let Err(e) = step {
            proof {
                lemma_address_failure_sticks(base, nlas, i + 1, e);
            }
            return Err(e);
        }
        i = i + 1;
    }
    assert(nlas.take(n as int) =~= nlas);
    Ok(address)
}

/// Encoding then decoding an address gives back the same address, for
/// every address whose address values agree with its family.
pub proof fn lemma_address_round_trip(a: AddressView)
    requires
        address_wf(a),
        address_consistent(a),
    ensures
        encode_address(a) matches Ok(m) && decode_address(m) == Ok::<AddressView, Error>(a),
{
    reveal_with_fuel(apply_address_attrs, 5);
    let base = address_of_header(address_header(a));
    let s0 = match a.address {
        Some(o) => seq![AddressAttrView::Address(o)],
        None => Seq::<AddressAttrView>::empty(),
    };
    let s1 = match a.local {
        Some(o) => s0.push(AddressAttrView::Local(o)),
        None => s0,
    };
    let s2 = match a.label {
        Some(l) => s1.push(AddressAttrView::Label(l)),
        None => s1,
    };
    let s3 = address_nlas(a);
    if a.address is Some {
        assert(s0.drop_last() =~= Seq::<AddressAttrView>::empty());
    }
    let b0 = AddressView { address: a.address, ..base };
    assert(apply_address_attrs(base, s0) == Ok::<AddressView, Error>(b0));
    if a.local is Some {
        assert(s1.drop_last() =~= s0);
    }
    let b1 = AddressView { local: a.local, ..b0 };
    assert(apply_address_attrs(base, s1) == Ok::<AddressView, Error>(b1));
    if a.label is Some {
        assert(s2.drop_last() =~= s1);
    }
    let b2 = AddressView { label: a.label, ..b1 };
    assert(apply_address_attrs(base, s2) == Ok::<AddressView, Error>(b2));
    if a.broadcast is Some {
        assert(s3.drop_last() =~= s2);
    }
    assert(apply_address_attrs(base, s3) == Ok::<AddressView, Error>(a));
}

/// What an add request needs: the address value it is keyed by, and the
/// message that carries the rest.
#[derive(Debug, Clone, PartialEq, Eq)]
pub struct AddressAdd {
    pub address: IpAddr,
    pub message: AddressMessage,
}

/// Builds the request that adds `payload`: an address value is required,
/// and the message is that of [`to_message`].
pub fn add(payload: &Address) -> (r: Result<AddressAdd, Error>)
    ensures
        payload.address is None ==> r == Err::<AddressAdd, Error>(Error::MissingAddress),
        payload.address is Some ==> match encode_address(payload@) {
            Ok(m) => r matches Ok(req) && req.message@ == m && Some(req.address) == payload.address,
            Err(e) => r == Err::<AddressAdd, Error>(e),
        },
{
    match payload.address {
        None => Err(Error::MissingAddress),
        Some(address) => {
            let message = to_message(payload)?;
            Ok(AddressAdd { address, message })
        },
    }
}

/// Whether a listed address passes the optional filters on owning link and
/// on scope.
pub open spec fn address_selected(a: AddressView, index: Option<u32>, scope: Option<u8>) -> bool {
    &&& index matches Some(i) ==> a.index == i
    &&& scope matches Some(sc) ==> a.scope == sc
}

/// The addresses of a dump: each message decoded in order, those that pass
/// the filters kept; the first message that fails to decode fails the list.
pub open spec fn select_addresses(
    ms: Seq<AddressMessageView>,
    index: Option<u32>,
    scope: Option<u8>,
) -> Result<Seq<AddressView>, Error>
    decreases ms.len(),
{
    if ms.len() == 0 {
        Ok(Seq::empty())
    } else {
        match select_addresses(ms.drop_last(), index, scope) {
            Ok(s) => match decode_address(ms.last()) {
                Ok(a) => Ok(
                    if address_selected(a, index, scope) {
                        s.push(a)
                    } else {
                        s
                    },
                ),
                Err(e) => Err(e),
            },
            Err(e) => Err(e),
        }
    }
}

/// The models of a list of addresses.
pub open spec fn addresses_view(v: Seq<Address>) -> Seq<AddressView> {
    v.map_values(|a: Address| a@)
}

/// The models of a list of messages.
pub open spec fn address_messages_view(v: Seq<AddressMessage>) -> Seq<AddressMessageView> {
    v.map_values(|m: AddressMessage| m@)
}

proof fn lemma_selection_failure_sticks(
    ms: Seq<AddressMessageView>,
    index: Option<u32>,
    scope: Option<u8>,
    i: int,
    e: Error,
)
    requires
        0 <= i <= ms.len(),
        select_addresses(ms.take(i), index, scope) == Err::<Seq<AddressView>, Error>(e),
    ensures
        select_addresses(ms, index, scope) == Err::<Seq<AddressView>, Error>(e),
    decreases ms.len() - i,
{
    if i == ms.len() {
        assert(ms.take(i) =~= ms);
    } else {
        assert(ms.take(i + 1).drop_last() =~= ms.take(i));
        lemma_selection_failure_sticks(ms, index, scope, i + 1, e);
    }
}

/// The addresses of a dump, narrowed to one owning link and to one scope
/// when those are given, in the order the kernel gave.
pub fn get(msgs: &Vec<AddressMessage>, index: Option<u32>, scope: Option<u8>) -> (r: Result<
    Vec<Address>,
    Error,
>)
    ensures
        match select_addresses(address_messages_view(msgs@), index, scope) {
            Ok(s) => r matches Ok(v) && addresses_view(v@) == s,
            Err(e) => r == Err::<Vec<Address>, Error>(e),
        },
{
    let ghost ms = address_messages_view(msgs@);
    let mut out: Vec<Address> = Vec::new();
    let mut i: usize = 0;
    assert(ms.take(0) =~= Seq::<AddressMessageView>::empty());
    assert(addresses_view(out@) =~= Seq::<AddressView>::empty());
    while i < msgs.len()
        invariant
            ms == address_messages_view(msgs@),
            i <= msgs@.len(),
            select_addresses(ms.take(i as int), index, scope) == Ok::<Seq<AddressView>, Error>(
                addresses_view(out@),
            ),
        decreases msgs@.len() - i,
    {
        assert(ms.take(i + 1).drop_last() =~= ms.take(i as int));
        assert(ms.take(i + 1).last() == msgs@[i as int]@);
        match from_message(&msgs[i]) {
            Ok(a) => {
                let keep = match index {
                    Some(x) => a.index == x,
                    None => true,
                } && match scope {
                    Some(sc) => a.scope == sc,
                    None => true,
                };
                if keep {
                    let ghost prev = addresses_view(out@);
                    out.push(a);
                    assert(addresses_view(out@) =~= prev.push(a@));
                }
            },
            Err(e) => {
                proof {
                    lemma_selection_failure_sticks(ms, index, scope, i + 1, e);
                }
                return Err(e);
            },
        }
        i = i + 1;
    }
    assert(ms.take(msgs@.len() as int) =~= ms);
    Ok(out)
}

} // verus!
