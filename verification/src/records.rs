//! The data model: kernel address and link records as plain values.

use vstd::prelude::*;

verus! {

/// An IPv4 address, as its four octets.
#[derive(Clone, Copy, Debug, PartialEq, Eq, Structural)]
pub struct Ipv4Address {
    pub o0: u8,
    pub o1: u8,
    pub o2: u8,
    pub o3: u8,
}

impl Ipv4Address {
    pub fn new(o0: u8, o1: u8, o2: u8, o3: u8) -> (r: Ipv4Address)
        ensures
            r == (Ipv4Address { o0, o1, o2, o3 }),
    {
        Ipv4Address { o0, o1, o2, o3 }
    }
}

/// One attribute of a kernel address record. The label names the interface
/// the record belongs to; the address attribute carries an assigned IPv4
/// address. Attributes of any other kind are uninterpreted here.
pub enum AddressNla {
    Label(String),
    Address(Ipv4Address),
    Other,
}

/// A kernel address record: one entry of the system address table, tied to
/// the interface with the given kernel index.
pub struct AddressRecord {
    pub index: u32,
    pub prefix_len: u8,
    pub nlas: Vec<AddressNla>,
}

/// One attribute of a kernel link record. The name attribute carries the
/// interface's name.
pub enum LinkNla {
    IfName(String),
    Other,
}

/// A kernel link record: a network interface descriptor.
pub struct LinkRecord {
    pub index: u32,
    pub nlas: Vec<LinkNla>,
}

/// Whether one address attribute labels the record with the given name.
pub open spec fn is_label_for(nla: AddressNla, name: Seq<char>) -> bool {
    nla matches AddressNla::Label(s) && s@ == name
}

/// Whether an address record is labeled with the given interface name.
pub open spec fn record_has_label(r: AddressRecord, name: Seq<char>) -> bool {
    exists|i: int| 0 <= i < r.nlas@.len() && is_label_for(#[trigger] r.nlas@[i], name)
}

/// Whether one link attribute names the interface.
pub open spec fn is_name_for(nla: LinkNla, name: Seq<char>) -> bool {
    nla matches LinkNla::IfName(s) && s@ == name
}

/// Whether a link record describes the interface with the given name.
pub open spec fn link_has_name(l: LinkRecord, name: Seq<char>) -> bool {
    exists|i: int| 0 <= i < l.nlas@.len() && is_name_for(#[trigger] l.nlas@[i], name)
}

/// Whether the record carries a label attribute equal to `ifname`.
pub fn record_matches(r: &AddressRecord, ifname: &String) -> (b: bool)
    ensures
        b == record_has_label(*r, ifname@),
{
    let mut i: usize = 0;
    while i < r.nlas.len()
        invariant
            i <= r.nlas@.len(),
            forall|j: int| 0 <= j < i ==> !is_label_for(#[trigger] r.nlas@[j], ifname@),
        decreases r.nlas@.len() - i,
    {
        match &r.nlas[i] {
            AddressNla::Label(s) => {
                if *s == *ifname {
                    assert(is_label_for(r.nlas@[i as int], ifname@));
                    return true;
                }
            },
            _ => {},
        }
        i += 1;
    }
    false
}

/// Whether the link record carries a name attribute equal to `ifname`.
pub fn link_matches(l: &LinkRecord, ifname: &String) -> (b: bool)
    ensures
        b == link_has_name(*l, ifname@),
{
    let mut i: usize = 0;
    while i < l.nlas.len()
        invariant
            i <= l.nlas@.len(),
            forall|j: int| 0 <= j < i ==> !is_name_for(#[trigger] l.nlas@[j], ifname@),
        decreases l.nlas@.len() - i,
    {
        match &l.nlas[i] {
            LinkNla::IfName(s) => {
                if *s == *ifname {
                    assert(is_name_for(l.nlas@[i as int], ifname@));
                    return true;
                }
            },
            _ => {},
        }
        i += 1;
    }
    false
}

} // verus!
