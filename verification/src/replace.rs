//! Deciding a replace operation: which assignments to delete, and at which
//! interface index the replacement address is added.

use vstd::prelude::*;

use crate::records::{
    link_has_name, link_matches, record_has_label, record_matches, AddressNla, AddressRecord,
    Ipv4Address, LinkRecord,
};

verus! {

/// One address assignment to delete from the kernel table: the interface
/// index, the address, and the prefix length of the record it came from.
#[derive(Clone, Copy, Debug, PartialEq, Eq, Structural)]
pub struct Deletion {
    pub index: u32,
    pub addr: Ipv4Address,
    pub prefix_len: u8,
}

/// The failure of a replace operation: the interface named `dev` does not
/// exist, neither in the address table nor in the link table.
#[derive(Clone, Debug)]
pub struct IpSettingError {
    pub dev: String,
}

impl IpSettingError {
    /// The failure, worded for a report to the user.
    pub fn message(&self) -> (r: String)
        ensures
            r@ == "set ip address failed on dev "@ + self.dev@,
    {
        let prefix = String::from_str("set ip address failed on dev ");
        prefix.concat(self.dev.as_str())
    }
}

/// What a scan of the address table yields for a replace: the assignments
/// to delete, and the interface index of the last record labeled with the
/// interface's name, if any record was.
pub struct AddressScan {
    pub deletions: Vec<Deletion>,
    pub found_index: Option<u32>,
}

/// A decided replace: delete these assignments, then add the new address at
/// interface index `add_index`.
pub struct ReplacePlan {
    pub deletions: Vec<Deletion>,
    pub add_index: u32,
}

/// The deletions drawn from one record's attributes: every carried address
/// other than the reserved one, at the given index and prefix length.
pub open spec fn deletions_of_nlas(
    nlas: Seq<AddressNla>,
    index: u32,
    prefix_len: u8,
    reserved: Ipv4Address,
) -> Seq<Deletion>
    decreases nlas.len(),
{
    if nlas.len() == 0 {
        Seq::empty()
    } else {
        deletions_of_nlas(nlas.drop_last(), index, prefix_len, reserved) + (if nlas.last()
            is Address && nlas.last()->Address_0 != reserved {
            seq![(Deletion { index, addr: nlas.last()->Address_0, prefix_len })]
        } else {
            Seq::empty()
        })
    }
}

/// The deletions drawn from one address record.
pub open spec fn deletions_of_record(r: AddressRecord, reserved: Ipv4Address) -> Seq<Deletion> {
    deletions_of_nlas(r.nlas@, r.index, r.prefix_len, reserved)
}

/// Every deletion a replace performs: the non-reserved addresses of every
/// record labeled with `name`, in record order.
pub open spec fn planned_deletions(
    records: Seq<AddressRecord>,
    name: Seq<char>,
    reserved: Ipv4Address,
) -> Seq<Deletion>
    decreases records.len(),
{
    if records.len() == 0 {
        Seq::empty()
    } else {
        planned_deletions(records.drop_last(), name, reserved) + (if record_has_label(
            records.last(),
            name,
        ) {
            deletions_of_record(records.last(), reserved)
        } else {
            Seq::empty()
        })
    }
}

/// The interface index of the last record labeled with `name`, if any.
pub open spec fn last_match_index(records: Seq<AddressRecord>, name: Seq<char>) -> Option<u32>
    decreases records.len(),
{
    if records.len() == 0 {
        None
    } else if record_has_label(records.last(), name) {
        Some(records.last().index)
    } else {
        last_match_index(records.drop_last(), name)
    }
}

/// The interface index of the first link record that names the interface,
/// if any: how the index is resolved when no address record matched.
pub open spec fn resolved_index(links: Seq<LinkRecord>, name: Seq<char>) -> Option<u32>
    decreases links.len(),
{
    if links.len() == 0 {
        None
    } else if link_has_name(links.first(), name) {
        Some(links.first().index)
    } else {
        resolved_index(links.drop_first(), name)
    }
}

/// The index a replace adds the new address at: the one seen in the address
/// table if any record matched, else the one resolved from the link table;
/// `None` when the interface exists in neither.
pub open spec fn replace_target(
    records: Seq<AddressRecord>,
    links: Seq<LinkRecord>,
    name: Seq<char>,
) -> Option<u32> {
    match last_match_index(records, name) {
        Some(i) => Some(i),
        None => resolved_index(links, name),
    }
}

/// Scans the address table for the interface named `ifname`: collects a
/// deletion for every assigned address other than `reserved` on records
/// labeled with that name, and reports the index of the last such record.
pub fn plan_replace(records: &Vec<AddressRecord>, ifname: &String, reserved: Ipv4Address) -> (scan:
    AddressScan)
    ensures
        scan.deletions@ == planned_deletions(records@, ifname@, reserved),
        scan.found_index == last_match_index(records@, ifname@),
{
    let mut deletions: Vec<Deletion> = Vec::new();
    let mut found_index: Option<u32> = None;
    let mut i: usize = 0;
    while i < records.len()
        invariant
            i <= records@.len(),
            deletions@ == planned_deletions(records@.take(i as int), ifname@, reserved),
            found_index == last_match_index(records@.take(i as int), ifname@),
        decreases records@.len() - i,
    {
        let r = &records[i];
        if record_matches(r, ifname) {
            found_index = Some(r.index);
            let ghost dels_before = deletions@;
            let mut j: usize = 0;
            while j < r.nlas.len()
                invariant
                    j <= r.nlas@.len(),
                    deletions@ == dels_before + deletions_of_nlas(
                        r.nlas@.take(j as int),
                        r.index,
                        r.prefix_len,
                        reserved,
                    ),
                decreases r.nlas@.len() - j,
            {
                match &r.nlas[j] {
                    AddressNla::Address(a) => {
                        if *a != reserved {
                            deletions.push(
                                Deletion { index: r.index, addr: *a, prefix_len: r.prefix_len },
                            );
                        }
                        proof {
                            assert(r.nlas@.take(j + 1).drop_last() =~= r.nlas@.take(j as int));
                            assert(r.nlas@.take(j + 1).last() == r.nlas@[j as int]);
                            assert(deletions@ =~= dels_before + deletions_of_nlas(
                                r.nlas@.take(j + 1),
                                r.index,
                                r.prefix_len,
                                reserved,
                            ));
                        }
                    },
                    _ => {
                        proof {
                            assert(r.nlas@.take(j + 1).drop_last() =~= r.nlas@.take(j as int));
                            assert(deletions@ =~= dels_before + deletions_of_nlas(
                                r.nlas@.take(j + 1),
                                r.index,
                                r.prefix_len,
                                reserved,
                            ));
                        }
                    },
                }
                j += 1;
            }
            proof {
                assert(r.nlas@.take(r.nlas@.len() as int) =~= r.nlas@);
                assert(records@.take(i + 1).drop_last() =~= records@.take(i as int));
                assert(records@.take(i + 1).last() == records@[i as int]);
                assert(deletions@ =~= planned_deletions(records@.take(i + 1), ifname@, reserved));
            }
        } else {
            proof {
                assert(records@.take(i + 1).drop_last() =~= records@.take(i as int));
                assert(records@.take(i + 1).last() == records@[i as int]);
                assert(deletions@ =~= planned_deletions(records@.take(i + 1), ifname@, reserved));
            }
        }
        i += 1;
    }
    proof {
        assert(records@.take(records@.len() as int) =~= records@);
    }
    AddressScan { deletions, found_index }
}

/// Resolves the interface's kernel index from the link table: the index of
/// the first link record named `ifname`, or `None` when the interface does
/// not exist.
pub fn resolve_link_index(links: &Vec<LinkRecord>, ifname: &String) -> (r: Option<u32>)
    ensures
        r == resolved_index(links@, ifname@),
{
    let mut i: usize = 0;
    proof {
        assert(links@.skip(0) =~= links@);
    }
    while i < links.len()
        invariant
            i <= links@.len(),
            resolved_index(links@, ifname@) == resolved_index(links@.skip(i as int), ifname@),
        decreases links@.len() - i,
    {
        let l = &links[i];
        if link_matches(l, ifname) {
            proof {
                assert(links@.skip(i as int).first() == links@[i as int]);
            }
            return Some(l.index);
        }
        proof {
            assert(links@.skip(i as int).first() == links@[i as int]);
            assert(links@.skip(i as int).drop_first() =~= links@.skip(i + 1));
        }
        i += 1;
    }
    proof {
        assert(links@.skip(links@.len() as int) =~= Seq::<LinkRecord>::empty());
    }
    None
}

/// When no address record is labeled with the name, a replace has nothing
/// to delete.
proof fn lemma_no_match_no_deletions(
    records: Seq<AddressRecord>,
    name: Seq<char>,
    reserved: Ipv4Address,
)
    requires
        last_match_index(records, name) is None,
    ensures
        planned_deletions(records, name, reserved) == Seq::<Deletion>::empty(),
    decreases records.len(),
{
    if records.len() > 0 {
        lemma_no_match_no_deletions(records.drop_last(), name, reserved);
        assert(planned_deletions(records, name, reserved) =~= Seq::<Deletion>::empty());
    }
}

/// Decides a replace of the addresses of `ifname`: every assignment whose
/// address is not `reserved` is deleted, and the new address is to be added
/// at the index of the last matching address record or, when no address
/// record matches, at the index resolved from the link table. When the
/// interface exists in neither table, the decision is the interface-not-found
/// failure, and nothing is deleted.
pub fn decide_replace(
    records: &Vec<AddressRecord>,
    links: &Vec<LinkRecord>,
    ifname: &String,
    reserved: Ipv4Address,
) -> (r: Result<ReplacePlan, IpSettingError>)
    ensures
        match r {
            Ok(plan) => replace_target(records@, links@, ifname@) == Some(plan.add_index)
                && plan.deletions@ == planned_deletions(records@, ifname@, reserved),
            Err(e) => replace_target(records@, links@, ifname@) is None && e.dev@ == ifname@
                && planned_deletions(records@, ifname@, reserved) == Seq::<Deletion>::empty(),
        },
{
    let scan = plan_replace(records, ifname, reserved);
    match scan.found_index {
        Some(i) => Ok(ReplacePlan { deletions: scan.deletions, add_index: i }),
        None => match resolve_link_index(links, ifname) {
            Some(i) => Ok(ReplacePlan { deletions: scan.deletions, add_index: i }),
            None => {
                proof {
                    lemma_no_match_no_deletions(records@, ifname@, reserved);
                }
                Err(IpSettingError { dev: ifname.clone() })
            },
        },
    }
}

} // verus!
