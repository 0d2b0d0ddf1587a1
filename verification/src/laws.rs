//! The laws of the replace operation: how what is deleted, what is kept,
//! and what is added combine into the interface's final address set.

use vstd::prelude::*;

use crate::listing::{addrs_of_nlas, addrs_of_record, listed_addrs};
use crate::records::{
    link_has_name, record_has_label, AddressNla, AddressRecord, Ipv4Address, LinkRecord,
};
use crate::replace::{
    deletions_of_nlas, deletions_of_record, last_match_index, planned_deletions, replace_target,
    resolved_index, Deletion,
};

verus! {

/// The assignments a replace keeps from one record's attributes: the carried
/// addresses equal to the reserved one, with the record's prefix length.
pub open spec fn kept_of_nlas(
    nlas: Seq<AddressNla>,
    prefix_len: u8,
    reserved: Ipv4Address,
) -> Seq<(Ipv4Address, u8)>
    decreases nlas.len(),
{
    if nlas.len() == 0 {
        Seq::empty()
    } else {
        kept_of_nlas(nlas.drop_last(), prefix_len, reserved) + (if nlas.last() is Address
            && nlas.last()->Address_0 == reserved {
            seq![(nlas.last()->Address_0, prefix_len)]
        } else {
            Seq::empty()
        })
    }
}

/// The assignments a replace keeps on the interface: the reserved addresses
/// of every record labeled with `name`, in record order.
pub open spec fn kept_addrs(
    records: Seq<AddressRecord>,
    name: Seq<char>,
    reserved: Ipv4Address,
) -> Seq<(Ipv4Address, u8)>
    decreases records.len(),
{
    if records.len() == 0 {
        Seq::empty()
    } else {
        kept_addrs(records.drop_last(), name, reserved) + (if record_has_label(
            records.last(),
            name,
        ) {
            kept_of_nlas(records.last().nlas@, records.last().prefix_len, reserved)
        } else {
            Seq::empty()
        })
    }
}

/// The address and prefix pairs of a sequence of deletions.
pub open spec fn deletion_pairs(ds: Seq<Deletion>) -> Seq<(Ipv4Address, u8)> {
    ds.map_values(|d: Deletion| (d.addr, d.prefix_len))
}

/// The interface's address set after a successful replace: the kept
/// (reserved) assignments, plus the new address with its prefix length.
pub open spec fn final_addr_set(
    records: Seq<AddressRecord>,
    name: Seq<char>,
    reserved: Ipv4Address,
    new_addr: Ipv4Address,
    prefix_len: u8,
) -> Set<(Ipv4Address, u8)> {
    kept_addrs(records, name, reserved).to_set().insert((new_addr, prefix_len))
}

/// Membership in a concatenation is membership in either part.
proof fn lemma_add_contains<A>(a: Seq<A>, b: Seq<A>, x: A)
    ensures
        (a + b).contains(x) == (a.contains(x) || b.contains(x)),
{
    if a.contains(x) {
        let i = choose|i: int| 0 <= i < a.len() && a[i] == x;
        assert((a + b)[i] == x);
    }
    if b.contains(x) {
        let i = choose|i: int| 0 <= i < b.len() && b[i] == x;
        assert((a + b)[a.len() + i] == x);
    }
    if (a + b).contains(x) {
        let i = choose|i: int| 0 <= i < (a + b).len() && (a + b)[i] == x;
        if i < a.len() {
            assert(a[i] == x);
        } else {
            assert(b[i - a.len()] == x);
        }
    }
}

/// Mapping deletions to pairs distributes over concatenation.
proof fn lemma_deletion_pairs_add(a: Seq<Deletion>, b: Seq<Deletion>)
    ensures
        deletion_pairs(a + b) =~= deletion_pairs(a) + deletion_pairs(b),
{
}

/// Over one record's attributes, the listed assignments are exactly the
/// kept ones and the deleted ones, kept being those with the reserved
/// address and deleted those without it.
proof fn lemma_nlas_split(
    nlas: Seq<AddressNla>,
    index: u32,
    prefix_len: u8,
    reserved: Ipv4Address,
)
    ensures
        forall|p: (Ipv4Address, u8)| #[trigger]
            addrs_of_nlas(nlas, prefix_len).contains(p) == (kept_of_nlas(
                nlas,
                prefix_len,
                reserved,
            ).contains(p) || deletion_pairs(
                deletions_of_nlas(nlas, index, prefix_len, reserved),
            ).contains(p)),
        forall|p: (Ipv4Address, u8)| #[trigger]
            kept_of_nlas(nlas, prefix_len, reserved).contains(p) ==> p.0 == reserved && p.1
                == prefix_len,
        forall|p: (Ipv4Address, u8)| #[trigger]
            deletion_pairs(deletions_of_nlas(nlas, index, prefix_len, reserved)).contains(p)
                ==> p.0 != reserved && p.1 == prefix_len,
    decreases nlas.len(),
{
    if nlas.len() == 0 {
    } else {
        let rest = nlas.drop_last();
        lemma_nlas_split(rest, index, prefix_len, reserved);
        let tail_addrs = (if nlas.last() is Address {
            seq![(nlas.last()->Address_0, prefix_len)]
        } else {
            Seq::<(Ipv4Address, u8)>::empty()
        });
        let tail_kept = (if nlas.last() is Address && nlas.last()->Address_0 == reserved {
            seq![(nlas.last()->Address_0, prefix_len)]
        } else {
            Seq::<(Ipv4Address, u8)>::empty()
        });
        let tail_dels = (if nlas.last() is Address && nlas.last()->Address_0 != reserved {
            seq![(Deletion { index, addr: nlas.last()->Address_0, prefix_len })]
        } else {
            Seq::<Deletion>::empty()
        });
        lemma_deletion_pairs_add(deletions_of_nlas(rest, index, prefix_len, reserved), tail_dels);
        assert(addrs_of_nlas(nlas, prefix_len) == addrs_of_nlas(rest, prefix_len) + tail_addrs);
        assert(kept_of_nlas(nlas, prefix_len, reserved) == kept_of_nlas(rest, prefix_len, reserved)
            + tail_kept);
        assert(deletions_of_nlas(nlas, index, prefix_len, reserved) == deletions_of_nlas(
            rest,
            index,
            prefix_len,
            reserved,
        ) + tail_dels);
        if nlas.last() is Address && nlas.last()->Address_0 != reserved {
            assert(deletion_pairs(tail_dels) =~= seq![(nlas.last()->Address_0, prefix_len)]);
        } else {
            assert(deletion_pairs(tail_dels) =~= Seq::<(Ipv4Address, u8)>::empty());
        }
        assert forall|p: (Ipv4Address, u8)| #[trigger]
            addrs_of_nlas(nlas, prefix_len).contains(p) == (kept_of_nlas(
                nlas,
                prefix_len,
                reserved,
            ).contains(p) || deletion_pairs(
                deletions_of_nlas(nlas, index, prefix_len, reserved),
            ).contains(p)) by {
            lemma_add_contains(addrs_of_nlas(rest, prefix_len), tail_addrs, p);
            lemma_add_contains(kept_of_nlas(rest, prefix_len, reserved), tail_kept, p);
            lemma_add_contains(
                deletion_pairs(deletions_of_nlas(rest, index, prefix_len, reserved)),
                deletion_pairs(tail_dels),
                p,
            );
        }
        assert forall|p: (Ipv4Address, u8)| #[trigger]
            kept_of_nlas(nlas, prefix_len, reserved).contains(p) implies p.0 == reserved && p.1
            == prefix_len by {
            lemma_add_contains(kept_of_nlas(rest, prefix_len, reserved), tail_kept, p);
        }
        assert forall|p: (Ipv4Address, u8)| #[trigger]
            deletion_pairs(deletions_of_nlas(nlas, index, prefix_len, reserved)).contains(p)
            implies p.0 != reserved && p.1 == prefix_len by {
            lemma_add_contains(
                deletion_pairs(deletions_of_nlas(rest, index, prefix_len, reserved)),
                deletion_pairs(tail_dels),
                p,
            );
        }
    }
}

/// Over the whole snapshot, the listed assignments are exactly the kept
/// ones and the planned deletions; kept ones carry the reserved address,
/// deleted ones do not.
proof fn lemma_records_split(records: Seq<AddressRecord>, name: Seq<char>, reserved: Ipv4Address)
    ensures
        forall|p: (Ipv4Address, u8)| #[trigger]
            listed_addrs(records, name).contains(p) == (kept_addrs(
                records,
                name,
                reserved,
            ).contains(p) || deletion_pairs(
                planned_deletions(records, name, reserved),
            ).contains(p)),
        forall|p: (Ipv4Address, u8)| #[trigger]
            kept_addrs(records, name, reserved).contains(p) ==> p.0 == reserved,
        forall|p: (Ipv4Address, u8)| #[trigger]
            deletion_pairs(planned_deletions(records, name, reserved)).contains(p) ==> p.0
                != reserved,
    decreases records.len(),
{
    if records.len() == 0 {
    } else {
        let rest = records.drop_last();
        let last = records.last();
        lemma_records_split(rest, name, reserved);
        lemma_nlas_split(last.nlas@, last.index, last.prefix_len, reserved);
        let matched = record_has_label(last, name);
        let tail_addrs = (if matched {
            addrs_of_record(last)
        } else {
            Seq::<(Ipv4Address, u8)>::empty()
        });
        let tail_kept = (if matched {
            kept_of_nlas(last.nlas@, last.prefix_len, reserved)
        } else {
            Seq::<(Ipv4Address, u8)>::empty()
        });
        let tail_dels = (if matched {
            deletions_of_record(last, reserved)
        } else {
            Seq::<Deletion>::empty()
        });
        lemma_deletion_pairs_add(planned_deletions(rest, name, reserved), tail_dels);
        assert(listed_addrs(records, name) == listed_addrs(rest, name) + tail_addrs);
        assert(kept_addrs(records, name, reserved) == kept_addrs(rest, name, reserved)
            + tail_kept);
        assert(planned_deletions(records, name, reserved) == planned_deletions(
            rest,
            name,
            reserved,
        ) + tail_dels);
        if !matched {
            assert(deletion_pairs(tail_dels) =~= Seq::<(Ipv4Address, u8)>::empty());
        }
        assert forall|p: (Ipv4Address, u8)| #[trigger]
            listed_addrs(records, name).contains(p) == (kept_addrs(
                records,
                name,
                reserved,
            ).contains(p) || deletion_pairs(
                planned_deletions(records, name, reserved),
            ).contains(p)) by {
            lemma_add_contains(listed_addrs(rest, name), tail_addrs, p);
            lemma_add_contains(kept_addrs(rest, name, reserved), tail_kept, p);
            lemma_add_contains(
                deletion_pairs(planned_deletions(rest, name, reserved)),
                deletion_pairs(tail_dels),
                p,
            );
        }
        assert forall|p: (Ipv4Address, u8)| #[trigger]
            kept_addrs(records, name, reserved).contains(p) implies p.0 == reserved by {
            lemma_add_contains(kept_addrs(rest, name, reserved), tail_kept, p);
        }
        assert forall|p: (Ipv4Address, u8)| #[trigger]
            deletion_pairs(planned_deletions(records, name, reserved)).contains(p) implies p.0
            != reserved by {
            lemma_add_contains(
                deletion_pairs(planned_deletions(rest, name, reserved)),
                deletion_pairs(tail_dels),
                p,
            );
        }
    }
}

/// A replace partitions the interface's listed assignments: what it keeps
/// is exactly the listed assignments whose address is the reserved one, and
/// what it deletes is exactly the listed assignments whose address is not.
pub proof fn lemma_replace_partition(
    records: Seq<AddressRecord>,
    name: Seq<char>,
    reserved: Ipv4Address,
)
    ensures
        forall|p: (Ipv4Address, u8)| #[trigger]
            kept_addrs(records, name, reserved).contains(p) == (listed_addrs(
                records,
                name,
            ).contains(p) && p.0 == reserved),
        forall|p: (Ipv4Address, u8)| #[trigger]
            deletion_pairs(planned_deletions(records, name, reserved)).contains(p) == (listed_addrs(
                records,
                name,
            ).contains(p) && p.0 != reserved),
{
    lemma_records_split(records, name, reserved);
}

/// When no address record is labeled with the name, nothing is listed,
/// nothing is kept, nothing is deleted, and no index is found.
proof fn lemma_no_label_no_effect(
    records: Seq<AddressRecord>,
    name: Seq<char>,
    reserved: Ipv4Address,
)
    requires
        forall|i: int| 0 <= i < records.len() ==> !record_has_label(#[trigger] records[i], name),
    ensures
        last_match_index(records, name) is None,
        planned_deletions(records, name, reserved) == Seq::<Deletion>::empty(),
        kept_addrs(records, name, reserved) == Seq::<(Ipv4Address, u8)>::empty(),
        listed_addrs(records, name) == Seq::<(Ipv4Address, u8)>::empty(),
    decreases records.len(),
{
    if records.len() > 0 {
        assert(!record_has_label(records[records.len() - 1], name));
        assert(forall|i: int|
            0 <= i < records.drop_last().len() ==> !record_has_label(
                #[trigger] records.drop_last()[i],
                name,
            ));
        lemma_no_label_no_effect(records.drop_last(), name, reserved);
        assert(planned_deletions(records, name, reserved) =~= Seq::<Deletion>::empty());
        assert(kept_addrs(records, name, reserved) =~= Seq::<(Ipv4Address, u8)>::empty());
        assert(listed_addrs(records, name) =~= Seq::<(Ipv4Address, u8)>::empty());
    }
}

/// When no link record names the interface, no index is resolved.
proof fn lemma_no_name_no_index(links: Seq<LinkRecord>, name: Seq<char>)
    requires
        forall|i: int| 0 <= i < links.len() ==> !link_has_name(#[trigger] links[i], name),
    ensures
        resolved_index(links, name) is None,
    decreases links.len(),
{
    if links.len() > 0 {
        assert(!link_has_name(links[0], name));
        assert(forall|i: int|
            0 <= i < links.drop_first().len() ==> !link_has_name(
                #[trigger] links.drop_first()[i],
                name,
            ));
        lemma_no_name_no_index(links.drop_first(), name);
    }
}

/// Listing the addresses of an interface that no address record is labeled
/// with yields the empty list.
pub proof fn lemma_list_no_match_empty(records: Seq<AddressRecord>, name: Seq<char>)
    requires
        forall|i: int| 0 <= i < records.len() ==> !record_has_label(#[trigger] records[i], name),
    ensures
        listed_addrs(records, name) == Seq::<(Ipv4Address, u8)>::empty(),
{
    lemma_no_label_no_effect(records, name, Ipv4Address { o0: 0, o1: 0, o2: 0, o3: 0 });
}

/// Replacing on an interface that holds exactly the assignments `a` and
/// `b`, where `a` carries the reserved address and `b` another one, leaves
/// exactly `a` and the new assignment.
pub proof fn lemma_replace_two_addrs(
    records: Seq<AddressRecord>,
    name: Seq<char>,
    a: (Ipv4Address, u8),
    b: (Ipv4Address, u8),
    new_addr: Ipv4Address,
    prefix_len: u8,
)
    requires
        listed_addrs(records, name).to_set() == set![a, b],
        b.0 != a.0,
    ensures
        final_addr_set(records, name, a.0, new_addr, prefix_len) == set![
            a,
            (new_addr, prefix_len),
        ],
{
    lemma_replace_partition(records, name, a.0);
    let listed = listed_addrs(records, name);
    assert forall|p: (Ipv4Address, u8)| #[trigger]
        kept_addrs(records, name, a.0).to_set().contains(p) == set![a].contains(p) by {
        assert(listed.to_set().contains(p) == listed.contains(p));
        assert(set![a, b].contains(p) == (p == a || p == b));
        assert(kept_addrs(records, name, a.0).contains(p) == (listed.contains(p) && p.0 == a.0));
    }
    assert(kept_addrs(records, name, a.0).to_set() =~= set![a]);
    assert(final_addr_set(records, name, a.0, new_addr, prefix_len) =~= set![
        a,
        (new_addr, prefix_len),
    ]);
}

/// Replacing on an interface with no address records deletes nothing, takes
/// its target index from the link table, and leaves the new assignment as
/// the interface's only one.
pub proof fn lemma_replace_no_addrs(
    records: Seq<AddressRecord>,
    links: Seq<LinkRecord>,
    name: Seq<char>,
    reserved: Ipv4Address,
    new_addr: Ipv4Address,
    prefix_len: u8,
)
    requires
        forall|i: int| 0 <= i < records.len() ==> !record_has_label(#[trigger] records[i], name),
    ensures
        last_match_index(records, name) is None,
        planned_deletions(records, name, reserved) == Seq::<Deletion>::empty(),
        replace_target(records, links, name) == resolved_index(links, name),
        final_addr_set(records, name, reserved, new_addr, prefix_len) == set![
            (new_addr, prefix_len),
        ],
{
    lemma_no_label_no_effect(records, name, reserved);
    assert(kept_addrs(records, name, reserved).to_set() =~= Set::<(Ipv4Address, u8)>::empty());
    assert(final_addr_set(records, name, reserved, new_addr, prefix_len) =~= set![
        (new_addr, prefix_len),
    ]);
}

/// For a name that neither the address table nor the link table knows, a
/// replace has no target and nothing to delete: the operation fails without
/// mutating anything.
pub proof fn lemma_replace_not_found(
    records: Seq<AddressRecord>,
    links: Seq<LinkRecord>,
    name: Seq<char>,
    reserved: Ipv4Address,
)
    requires
        forall|i: int| 0 <= i < records.len() ==> !record_has_label(#[trigger] records[i], name),
        forall|i: int| 0 <= i < links.len() ==> !link_has_name(#[trigger] links[i], name),
    ensures
        replace_target(records, links, name) is None,
        planned_deletions(records, name, reserved) == Seq::<Deletion>::empty(),
{
    lemma_no_label_no_effect(records, name, reserved);
    lemma_no_name_no_index(links, name);
}

/// Replacing twice with the same reserved and new address yields the same
/// final address set as replacing once: whatever snapshot the kernel
/// reports after the first replace, as long as its address set is the first
/// replace's outcome, the second replace decides the same final set.
pub proof fn lemma_replace_idempotent(
    records: Seq<AddressRecord>,
    records2: Seq<AddressRecord>,
    name: Seq<char>,
    reserved: Ipv4Address,
    new_addr: Ipv4Address,
    prefix_len: u8,
)
    requires
        listed_addrs(records2, name).to_set() == final_addr_set(
            records,
            name,
            reserved,
            new_addr,
            prefix_len,
        ),
    ensures
        final_addr_set(records2, name, reserved, new_addr, prefix_len) == final_addr_set(
            records,
            name,
            reserved,
            new_addr,
            prefix_len,
        ),
{
    lemma_replace_partition(records, name, reserved);
    lemma_replace_partition(records2, name, reserved);
    let np = (new_addr, prefix_len);
    assert forall|p: (Ipv4Address, u8)| #[trigger]
        final_addr_set(records2, name, reserved, new_addr, prefix_len).contains(p)
            == final_addr_set(records, name, reserved, new_addr, prefix_len).contains(p) by {
        assert(listed_addrs(records2, name).to_set().contains(p) == listed_addrs(
            records2,
            name,
        ).contains(p));
        assert(kept_addrs(records2, name, reserved).to_set().contains(p) == kept_addrs(
            records2,
            name,
            reserved,
        ).contains(p));
        assert(kept_addrs(records, name, reserved).to_set().contains(p) == kept_addrs(
            records,
            name,
            reserved,
        ).contains(p));
        assert(final_addr_set(records, name, reserved, new_addr, prefix_len).contains(p) == (
        kept_addrs(records, name, reserved).contains(p) || p == np));
        assert(final_addr_set(records2, name, reserved, new_addr, prefix_len).contains(p) == (
        kept_addrs(records2, name, reserved).contains(p) || p == np));
    }
    assert(final_addr_set(records2, name, reserved, new_addr, prefix_len) =~= final_addr_set(
        records,
        name,
        reserved,
        new_addr,
        prefix_len,
    ));
}

} // verus!
