//! Network interfaces: the per-address records that the operating system
//! reports, merged into one consistent description per interface.

use crate::grouping::{key_position, keys_increasing, keys_of, lemma_text_less_total, text_less};
use vstd::prelude::*;
use vstd::string::StringExecFns;

verus! {

/// An address of a network interface
#[derive(Copy, Clone, Debug, Eq, PartialEq, Structural)]
#[allow(inconsistent_fields)]
pub enum NicAddress {
    /// Link-layer (MAC) address: its octets, most significant first, and
    /// whether it is a 64-bit one
    Link { bits: u64, eui64: bool },
    /// IPv4 socket address
    Ipv4 { ip: u32, port: u16 },
    /// IPv6 socket address
    Ipv6 { ip: u128, port: u16 },
}

/// The family of an address
#[derive(Copy, Clone, Debug, Eq, PartialEq, Structural)]
pub enum AddressKind {
    Link,
    Ipv4,
    Ipv6,
}

/// Link type of a network interface
#[derive(Copy, Clone, Debug, Eq, PartialEq, Structural)]
pub enum LinkType {
    /// Broadcast link
    Broadcast,
    /// Point-to-point link
    PointToPoint,
    /// Neither broadcast nor point-to-point (interface is most likely down)
    Neither,
}

/// Why the records of a network interface do not make sense together
#[derive(Copy, Clone, Debug, Eq, PartialEq, Structural)]
pub enum NicError {
    /// Two records of one interface disagree on its status flags or link type
    InconsistentStatus,
    /// An interface claims broadcast and point-to-point modes at once
    BroadcastAndPointToPoint,
    /// An interface has more than one link-layer address
    DuplicateLinkAddress,
    /// A link-layer address comes with a subnet mask
    LinkNetmask,
    /// A link-layer address comes with a destination address
    LinkDestination,
    /// A socket address of an interface carries a port
    NonZeroPort,
    /// An address differs in family from the one it qualifies
    FamilyMismatch,
    /// A destination address on an interface not in point-to-point mode
    DestinationWithoutPointToPoint,
    /// Both a destination and a broadcast address
    DestinationWithBroadcast,
    /// A broadcast address on an interface not in broadcast mode
    BroadcastWithoutBroadcastMode,
    /// An IP address without a subnet mask
    MissingSubnetMask,
}

/// One address of a network interface, with the interface's status, as the
/// operating system reports it
pub struct NicRecord {
    pub name: String,
    pub is_up: bool,
    pub is_loopback: bool,
    pub is_multicast: bool,
    pub is_broadcast: bool,
    pub is_point_to_point: bool,
    pub address: NicAddress,
    pub netmask: Option<NicAddress>,
    pub destination: Option<NicAddress>,
    pub broadcast: Option<NicAddress>,
}

/// Properties which are specific to a given address of a network interface
#[derive(Copy, Clone, Debug, Eq, PartialEq, Structural)]
pub struct AddressProperties {
    /// Address of a network interface
    pub address: NicAddress,
    /// Associated subnet mask (if any)
    pub netmask: Option<NicAddress>,
    /// Associated broadcast or point-to-point destination address (if any)
    pub target: Option<NicAddress>,
}

/// Global properties of a network interface card (according to ifconfig)
#[derive(Debug)]
pub struct InterfaceProperties {
    pub is_up: bool,
    pub is_loopback: bool,
    pub is_multicast: bool,
    pub link_type: Option<LinkType>,
    /// The interface's link-layer address, which is unique if reported
    pub link_address: Option<AddressProperties>,
    pub ipv4_addresses: Vec<AddressProperties>,
    pub ipv6_addresses: Vec<AddressProperties>,
}

/// Abstract view of the properties of an interface
pub struct InterfaceView {
    pub is_up: bool,
    pub is_loopback: bool,
    pub is_multicast: bool,
    pub link_type: Option<LinkType>,
    pub link_address: Option<AddressProperties>,
    pub ipv4_addresses: Seq<AddressProperties>,
    pub ipv6_addresses: Seq<AddressProperties>,
}

impl View for InterfaceProperties {
    type V = InterfaceView;

    open spec fn view(&self) -> InterfaceView {
        InterfaceView {
            is_up: self.is_up,
            is_loopback: self.is_loopback,
            is_multicast: self.is_multicast,
            link_type: self.link_type,
            link_address: self.link_address,
            ipv4_addresses: self.ipv4_addresses@,
            ipv6_addresses: self.ipv6_addresses@,
        }
    }
}

/// The family of an address.
pub open spec fn kind_of(a: NicAddress) -> AddressKind {
    match a {
        NicAddress::Link { .. } => AddressKind::Link,
        NicAddress::Ipv4 { .. } => AddressKind::Ipv4,
        NicAddress::Ipv6 { .. } => AddressKind::Ipv6,
    }
}

/// The port of a socket address; link-layer addresses have none.
pub open spec fn port_of(a: NicAddress) -> u16 {
    match a {
        NicAddress::Link { .. } => 0,
        NicAddress::Ipv4 { port, .. } => port,
        NicAddress::Ipv6 { port, .. } => port,
    }
}

/// An address that qualifies one of family `kind`: of the same family, and
/// without a port.
pub open spec fn decoded(kind: AddressKind, a: NicAddress) -> Result<NicAddress, NicError> {
    if kind_of(a) != kind {
        Err(NicError::FamilyMismatch)
    } else if port_of(a) != 0 {
        Err(NicError::NonZeroPort)
    } else {
        Ok(a)
    }
}

/// An optional address that qualifies one of family `kind`.
pub open spec fn decoded_opt(kind: AddressKind, a: Option<NicAddress>) -> Result<
    Option<NicAddress>,
    NicError,
> {
    match a {
        None => Ok(None),
        Some(a) => match decoded(kind, a) {
            Ok(d) => Ok(Some(d)),
            Err(e) => Err(e),
        },
    }
}

/// The link type that a record's mode flags give.
pub open spec fn link_type_of(nic: NicRecord) -> Result<LinkType, NicError> {
    if nic.is_broadcast && nic.is_point_to_point {
        Err(NicError::BroadcastAndPointToPoint)
    } else if nic.is_broadcast {
        Ok(LinkType::Broadcast)
    } else if nic.is_point_to_point {
        Ok(LinkType::PointToPoint)
    } else {
        Ok(LinkType::Neither)
    }
}

/// The properties of the address of a record: its subnet mask, and its
/// point-to-point destination or else its broadcast address.
pub open spec fn address_properties(nic: NicRecord) -> Result<AddressProperties, NicError> {
    let kind = kind_of(nic.address);
    match decoded_opt(kind, nic.netmask) {
        Err(e) => Err(e),
        Ok(netmask) => match decoded_opt(kind, nic.destination) {
            Err(e) => Err(e),
            Ok(Some(dest)) => if !nic.is_point_to_point {
                Err(NicError::DestinationWithoutPointToPoint)
            } else if nic.broadcast is Some {
                Err(NicError::DestinationWithBroadcast)
            } else {
                Ok(AddressProperties { address: nic.address, netmask, target: Some(dest) })
            },
            Ok(None) => if nic.broadcast is None {
                Ok(AddressProperties { address: nic.address, netmask, target: None })
            } else if !nic.is_broadcast {
                Err(NicError::BroadcastWithoutBroadcastMode)
            } else {
                match decoded_opt(kind, nic.broadcast) {
                    Err(e) => Err(e),
                    Ok(target) => Ok(AddressProperties { address: nic.address, netmask, target }),
                }
            },
        },
    }
}

/// The properties of an interface once the address of a further record of
/// it is registered.
pub open spec fn with_address(p: InterfaceView, nic: NicRecord) -> Result<InterfaceView, NicError> {
    if p.is_up != nic.is_up || p.is_loopback != nic.is_loopback || p.is_multicast
        != nic.is_multicast {
        Err(NicError::InconsistentStatus)
    } else {
        match link_type_of(nic) {
            Err(e) => Err(e),
            Ok(lt) => if p.link_type is Some && p.link_type != Some(lt) {
                Err(NicError::InconsistentStatus)
            } else {
                let p = InterfaceView { link_type: Some(lt), ..p };
                match nic.address {
                    NicAddress::Link { .. } => if p.link_address is Some {
                        Err(NicError::DuplicateLinkAddress)
                    } else if nic.netmask is Some {
                        Err(NicError::LinkNetmask)
                    } else if nic.destination is Some {
                        Err(NicError::LinkDestination)
                    } else {
                        match address_properties(nic) {
                            Err(e) => Err(e),
                            Ok(a) => Ok(InterfaceView { link_address: Some(a), ..p }),
                        }
                    },
                    NicAddress::Ipv4 { port, .. } => if port != 0 {
                        Err(NicError::NonZeroPort)
                    } else {
                        match address_properties(nic) {
                            Err(e) => Err(e),
                            Ok(a) => Ok(InterfaceView { ipv4_addresses: p.ipv4_addresses.push(a), ..p }),
                        }
                    },
                    NicAddress::Ipv6 { port, .. } => if port != 0 {
                        Err(NicError::NonZeroPort)
                    } else {
                        match address_properties(nic) {
                            Err(e) => Err(e),
                            Ok(a) => Ok(InterfaceView { ipv6_addresses: p.ipv6_addresses.push(a), ..p }),
                        }
                    },
                }
            },
        }
    }
}

/// The properties of an interface first seen through a record.
pub open spec fn first_seen(nic: NicRecord) -> Result<InterfaceView, NicError> {
    with_address(
        InterfaceView {
            is_up: nic.is_up,
            is_loopback: nic.is_loopback,
            is_multicast: nic.is_multicast,
            link_type: None,
            link_address: None,
            ipv4_addresses: Seq::empty(),
            ipv6_addresses: Seq::empty(),
        },
        nic,
    )
}

/// Check that an address qualifies one of family `kind`.
fn decode(kind: AddressKind, a: NicAddress) -> (r: Result<NicAddress, NicError>)
    ensures
        r == decoded(kind, a),
{
    let k = match a {
        NicAddress::Link { .. } => AddressKind::Link,
        NicAddress::Ipv4 { .. } => AddressKind::Ipv4,
        NicAddress::Ipv6 { .. } => AddressKind::Ipv6,
    };
    let port = match a {
        NicAddress::Link { .. } => 0,
        NicAddress::Ipv4 { port, .. } => port,
        NicAddress::Ipv6 { port, .. } => port,
    };
    if k != kind {
        Err(NicError::FamilyMismatch)
    } else if port != 0 {
        Err(NicError::NonZeroPort)
    } else {
        Ok(a)
    }
}

/// Check that an optional address qualifies one of family `kind`.
fn decode_opt(kind: AddressKind, a: Option<NicAddress>) -> (r: Result<Option<NicAddress>, NicError>)
    ensures
        r == decoded_opt(kind, a),
{
    match a {
        None => Ok(None),
        Some(a) => match decode(kind, a) {
            Ok(d) => Ok(Some(d)),
            Err(e) => Err(e),
        },
    }
}

impl LinkType {
    /// The link type of an interface, from its mode flags
    pub fn check(nic: &NicRecord) -> (r: Result<LinkType, NicError>)
        ensures
            r == link_type_of(*nic),
    {
        match (nic.is_broadcast, nic.is_point_to_point) {
            (true, true) => Err(NicError::BroadcastAndPointToPoint),
            (true, false) => Ok(LinkType::Broadcast),
            (false, true) => Ok(LinkType::PointToPoint),
            (false, false) => Ok(LinkType::Neither),
        }
    }
}

impl AddressProperties {
    /// Collect the properties of the address of a record, checking that the
    /// addresses that qualify it are of its family and fit the interface's
    /// mode.
    pub fn new(nic: &NicRecord) -> (r: Result<AddressProperties, NicError>)
        ensures
            r == address_properties(*nic),
    {
        let kind = match nic.address {
            NicAddress::Link { .. } => AddressKind::Link,
            NicAddress::Ipv4 { .. } => AddressKind::Ipv4,
            NicAddress::Ipv6 { .. } => AddressKind::Ipv6,
        };
        let netmask = match decode_opt(kind, nic.netmask) {
            Ok(m) => m,
            Err(e) => return Err(e),
        };
        let mut target = match decode_opt(kind, nic.destination) {
            Ok(t) => t,
            Err(e) => return Err(e),
        };
        if target.is_some() {
            if !nic.is_point_to_point {
                return Err(NicError::DestinationWithoutPointToPoint);
            }
            if nic.broadcast.is_some() {
                return Err(NicError::DestinationWithBroadcast);
            }
        } else if nic.broadcast.is_some() {
            if !nic.is_broadcast {
                return Err(NicError::BroadcastWithoutBroadcastMode);
            }
            target = match decode_opt(kind, nic.broadcast) {
                Ok(t) => t,
                Err(e) => return Err(e),
            };
        }
        Ok(AddressProperties { address: nic.address, netmask, target })
    }
}

impl InterfaceProperties {
    /// Fill up global interface properties using the first record that was
    /// observed for this interface.
    pub fn new(nic: &NicRecord) -> (r: Result<InterfaceProperties, NicError>)
        ensures
            match first_seen(*nic) {
                Ok(v) => r matches Ok(p) && p@ == v,
                Err(e) => r matches Err(e2) && e2 == e,
            },
    {
        let mut result = InterfaceProperties {
            is_up: nic.is_up,
            is_loopback: nic.is_loopback,
            is_multicast: nic.is_multicast,
            link_type: None,
            link_address: None,
            ipv4_addresses: Vec::new(),
            ipv6_addresses: Vec::new(),
        };
        assert(result@ =~= InterfaceView {
            is_up: nic.is_up,
            is_loopback: nic.is_loopback,
            is_multicast: nic.is_multicast,
            link_type: None,
            link_address: None,
            ipv4_addresses: Seq::empty(),
            ipv6_addresses: Seq::empty(),
        });
        match result.add_address(nic) {
            Ok(()) => Ok(result),
            Err(e) => Err(e),
        }
    }

    /// Register a further address of this interface, checking that the
    /// record agrees with the interface-wide properties. On failure, the
    /// properties are left as they were.
    pub fn add_address(&mut self, nic: &NicRecord) -> (r: Result<(), NicError>)
        ensures
            match with_address(old(self)@, *nic) {
                Ok(v) => r is Ok && final(self)@ == v,
                Err(e) => r == Err::<(), NicError>(e) && final(self)@ == old(self)@,
            },
    {
        if self.is_up != nic.is_up || self.is_loopback != nic.is_loopback || self.is_multicast
            != nic.is_multicast {
            return Err(NicError::InconsistentStatus);
        }
        let lt = match LinkType::check(nic) {
            Ok(lt) => lt,
            Err(e) => return Err(e),
        };
        match self.link_type {
            Some(old_lt) => if old_lt != lt {
                return Err(NicError::InconsistentStatus);
            },
            None => {},
        }
        let props = match nic.address {
            NicAddress::Link { .. } => {
                if self.link_address.is_some() {
                    return Err(NicError::DuplicateLinkAddress);
                }
                if nic.netmask.is_some() {
                    return Err(NicError::LinkNetmask);
                }
                if nic.destination.is_some() {
                    return Err(NicError::LinkDestination);
                }
                AddressProperties::new(nic)
            },
            NicAddress::Ipv4 { port, .. } | NicAddress::Ipv6 { port, .. } => {
                if port != 0 {
                    return Err(NicError::NonZeroPort);
                }
                AddressProperties::new(nic)
            },
        };
        let props = match props {
            Ok(p) => p,
            Err(e) => return Err(e),
        };
        self.link_type = Some(lt);
        match nic.address {
            NicAddress::Link { .. } => self.link_address = Some(props),
            NicAddress::Ipv4 { .. } => self.ipv4_addresses.push(props),
            NicAddress::Ipv6 { .. } => self.ipv6_addresses.push(props),
        }
        Ok(())
    }
}


/// The views of interfaces named by their names.
pub open spec fn entries_view(v: Seq<(String, InterfaceProperties)>) -> Seq<(Seq<char>, InterfaceView)> {
    v.map_values(|e: (String, InterfaceProperties)| (e.0@, e.1@))
}

/// Whether some entry is named `name`.
pub open spec fn has_name(entries: Seq<(Seq<char>, InterfaceView)>, name: Seq<char>) -> bool {
    exists|i: int| 0 <= i < entries.len() && entries[i].0 == name
}

/// The index of the entry named `name`, when there is one.
pub open spec fn index_of_name(entries: Seq<(Seq<char>, InterfaceView)>, name: Seq<char>) -> int {
    choose|i: int| 0 <= i < entries.len() && entries[i].0 == name
}

/// The names of the entries.
pub open spec fn names_of(entries: Seq<(Seq<char>, InterfaceView)>) -> Seq<Seq<char>> {
    entries.map_values(|e: (Seq<char>, InterfaceView)| e.0)
}

/// Where an entry named `name` goes among entries in increasing name order.
pub open spec fn insertion_point(entries: Seq<(Seq<char>, InterfaceView)>, name: Seq<char>) -> int {
    choose|i: int| 0 <= i <= entries.len() && keys_increasing(names_of(entries).insert(i, name))
}

/// An increasing sequence of names has one place for a new name.
proof fn lemma_insertion_point_unique(names: Seq<Seq<char>>, name: Seq<char>, i: int, j: int)
    requires
        0 <= i <= names.len(),
        0 <= j <= names.len(),
        keys_increasing(names.insert(i, name)),
        keys_increasing(names.insert(j, name)),
    ensures
        i == j,
{
    names.insert_ensures(i, name);
    names.insert_ensures(j, name);
    if i < j {
        let (a, b) = (names.insert(i, name), names.insert(j, name));
        assert(a[i] == name && a[i + 1] == names[i]);
        assert(b[i] == names[i] && b[j] == name);
        assert(text_less(a[i], a[i + 1]));
        assert(text_less(b[i], b[j]));
        lemma_text_less_total(name, names[i]);
    } else if j < i {
        let (a, b) = (names.insert(i, name), names.insert(j, name));
        assert(b[j] == name && b[j + 1] == names[j]);
        assert(a[j] == names[j] && a[i] == name);
        assert(text_less(b[j], b[j + 1]));
        assert(text_less(a[j], a[i]));
        lemma_text_less_total(name, names[j]);
    }
}

/// The interfaces that a sequence of records describes, in increasing order
/// of names, each with every address of its records.
pub open spec fn grouped(nics: Seq<NicRecord>) -> Result<Seq<(Seq<char>, InterfaceView)>, NicError>
    decreases nics.len(),
{
    if nics.len() == 0 {
        Ok(Seq::empty())
    } else {
        match grouped(nics.drop_last()) {
            Err(e) => Err(e),
            Ok(entries) => {
                let nic = nics.last();
                if has_name(entries, nic.name@) {
                    let i = index_of_name(entries, nic.name@);
                    match with_address(entries[i].1, nic) {
                        Ok(v) => Ok(entries.update(i, (nic.name@, v))),
                        Err(e) => Err(e),
                    }
                } else {
                    match first_seen(nic) {
                        Ok(v) => Ok(entries.insert(insertion_point(entries, nic.name@), (nic.name@, v))),
                        Err(e) => Err(e),
                    }
                }
            },
        }
    }
}

/// Once the records seen so far are inconsistent, further records do not
/// change the verdict.
proof fn lemma_grouped_error_persists(nics: Seq<NicRecord>, k: int)
    requires
        0 <= k <= nics.len(),
        grouped(nics.take(k)) is Err,
    ensures
        grouped(nics) == grouped(nics.take(k)),
    decreases nics.len() - k,
{
    if k < nics.len() {
        assert(nics.take(k + 1).drop_last() =~= nics.take(k));
        lemma_grouped_error_persists(nics, k + 1);
    } else {
        assert(nics.take(k) =~= nics);
    }
}

/// Some IP address of the interfaces has no subnet mask.
pub open spec fn lacks_netmask(entries: Seq<(Seq<char>, InterfaceView)>) -> bool {
    exists|i: int, k: int|
        0 <= i < entries.len() && ((0 <= k < entries[i].1.ipv4_addresses.len()
            && entries[i].1.ipv4_addresses[k].netmask is None) || (0 <= k
            < entries[i].1.ipv6_addresses.len() && entries[i].1.ipv6_addresses[k].netmask is None))
}

/// Whether some IP address of a list has no subnet mask.
fn any_without_netmask(addresses: &Vec<AddressProperties>) -> (r: bool)
    ensures
        r == exists|k: int| 0 <= k < addresses@.len() && addresses@[k].netmask is None,
{
    for k in 0..addresses.len()
        invariant
            forall|m: int| 0 <= m < k ==> addresses@[m].netmask is Some,
    {
        if addresses[k].netmask.is_none() {
            return true;
        }
    }
    false
}

/// Merge the records of the host's network interfaces into one description
/// per interface, in increasing order of interface names.
///
/// Fails with the first inconsistency among the records, and then, if some
/// IP address has no subnet mask, with `MissingSubnetMask`.
pub fn group_interfaces(nics: Vec<NicRecord>) -> (r: Result<Vec<(String, InterfaceProperties)>, NicError>)
    ensures
        grouped(nics@) is Err ==> r == Err::<Vec<(String, InterfaceProperties)>, NicError>(
            grouped(nics@)->Err_0,
        ),
        grouped(nics@) is Ok && lacks_netmask(grouped(nics@)->Ok_0) ==> r == Err::<
            Vec<(String, InterfaceProperties)>,
            NicError,
        >(NicError::MissingSubnetMask),
        grouped(nics@) is Ok && !lacks_netmask(grouped(nics@)->Ok_0) ==> (r matches Ok(v)
            && entries_view(v@) == grouped(nics@)->Ok_0),
{
    let ghost s = nics@;
    let mut entries: Vec<(String, InterfaceProperties)> = Vec::new();
    assert(s.take(0) =~= Seq::<NicRecord>::empty());
    assert(entries_view(entries@) =~= Seq::empty());
    for nic in it: nics.into_iter()
        invariant
            it.seq() == s,
            grouped(s.take(it.index() as int)) == Ok::<Seq<(Seq<char>, InterfaceView)>, NicError>(
                entries_view(entries@),
            ),
            keys_increasing(names_of(entries_view(entries@))),
    {
        let ghost k = it.index();
        let ghost before = entries_view(entries@);
        assert(s.take(k + 1).drop_last() =~= s.take(k as int));
        assert(s.take(k + 1).last() == nic);
        assert(keys_of(entries@) =~= names_of(before));
        match key_position(&entries, nic.name.as_str()) {
            Ok(j) => {
                proof {
                    assert(before[j as int].0 == nic.name@);
                    assert(has_name(before, nic.name@));
                    let c = index_of_name(before, nic.name@);
                    assert(c == j) by {
                        lemma_text_less_total(nic.name@, nic.name@);
                        assert(names_of(before)[c] == nic.name@);
                        assert(names_of(before)[j as int] == nic.name@);
                    }
                }
                let entry = &mut entries[j];
                match entry.1.add_address(&nic) {
                    Ok(()) => {},
                    Err(e) => {
                        proof {
                            assert(grouped(s.take(k + 1)) == Err::<Seq<(Seq<char>, InterfaceView)>, NicError>(e));
                            lemma_grouped_error_persists(s, k + 1);
                        }
                        return Err(e);
                    },
                }
                assert(entries_view(entries@) =~= before.update(j as int, (nic.name@, entries@[j as int].1@)));
                assert(names_of(entries_view(entries@)) =~= names_of(before));
            },
            Err(j) => {
                proof {
                    assert(!has_name(before, nic.name@)) by {
                        if has_name(before, nic.name@) {
                            let m = choose|m: int| 0 <= m < before.len() && before[m].0 == nic.name@;
                            assert(names_of(before)[m] == nic.name@);
                        }
                    }
                    let c = insertion_point(before, nic.name@);
                    lemma_insertion_point_unique(names_of(before), nic.name@, c, j as int);
                }
                let props = match InterfaceProperties::new(&nic) {
                    Ok(p) => p,
                    Err(e) => {
                        proof {
                            assert(grouped(s.take(k + 1)) == Err::<Seq<(Seq<char>, InterfaceView)>, NicError>(e));
                            lemma_grouped_error_persists(s, k + 1);
                        }
                        return Err(e);
                    },
                };
                let ghost added = (nic.name@, props@);
                entries.insert(j, (nic.name, props));
                assert(entries_view(entries@) =~= before.insert(j as int, added));
                assert(names_of(entries_view(entries@)) =~= names_of(before).insert(j as int, added.0));
            },
        }
    }
    assert(s.take(s.len() as int) =~= s);
    let ghost all = entries_view(entries@);
    for i in 0..entries.len()
        invariant
            all == entries_view(entries@),
            s == nics@,
            grouped(s) == Ok::<Seq<(Seq<char>, InterfaceView)>, NicError>(all),
            forall|m: int, k: int|
                0 <= m < i ==> !((0 <= k < all[m].1.ipv4_addresses.len()
                    && all[m].1.ipv4_addresses[k].netmask is None) || (0 <= k
                    < all[m].1.ipv6_addresses.len() && all[m].1.ipv6_addresses[k].netmask is None)),
    {
        assert(all[i as int].1 == entries@[i as int].1@);
        let v4 = any_without_netmask(&entries[i].1.ipv4_addresses);
        let v6 = any_without_netmask(&entries[i].1.ipv6_addresses);
        if v4 || v6 {
            proof {
                if v4 {
                    let k = choose|k: int|
                        0 <= k < entries@[i as int].1.ipv4_addresses@.len()
                            && entries@[i as int].1.ipv4_addresses@[k].netmask is None;
                    assert(all[i as int].1.ipv4_addresses[k].netmask is None);
                    assert(lacks_netmask(all));
                } else {
                    let k = choose|k: int|
                        0 <= k < entries@[i as int].1.ipv6_addresses@.len()
                            && entries@[i as int].1.ipv6_addresses@[k].netmask is None;
                    assert(all[i as int].1.ipv6_addresses[k].netmask is None);
                    assert(lacks_netmask(all));
                }
            }
            return Err(NicError::MissingSubnetMask);
        }
    }
    Ok(entries)
}

/// How a link type is reported: "Unknown" when not known, "None" for a link
/// that is neither broadcast nor point-to-point.
pub open spec fn link_type_text(t: Option<LinkType>) -> Seq<char> {
    match t {
        None => "Unknown"@,
        Some(LinkType::Neither) => "None"@,
        Some(LinkType::Broadcast) => "Broadcast"@,
        Some(LinkType::PointToPoint) => "PointToPoint"@,
    }
}

/// Describe a link type for the report.
pub fn describe_link_type(t: Option<LinkType>) -> (r: String)
    ensures
        r@ == link_type_text(t),
{
    match t {
        None => String::from_str("Unknown"),
        Some(LinkType::Neither) => String::from_str("None"),
        Some(LinkType::Broadcast) => String::from_str("Broadcast"),
        Some(LinkType::PointToPoint) => String::from_str("PointToPoint"),
    }
}

} // verus!
