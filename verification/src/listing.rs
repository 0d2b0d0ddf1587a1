//! Listing the IPv4 addresses assigned to a named interface.

use vstd::prelude::*;

use crate::records::{record_has_label, record_matches, AddressNla, AddressRecord, Ipv4Address};

verus! {

/// The addresses carried by a record's attributes, in attribute order, each
/// paired with the record's prefix length.
pub open spec fn addrs_of_nlas(nlas: Seq<AddressNla>, prefix_len: u8) -> Seq<(Ipv4Address, u8)>
    decreases nlas.len(),
{
    if nlas.len() == 0 {
        Seq::empty()
    } else {
        addrs_of_nlas(nlas.drop_last(), prefix_len) + (if nlas.last() is Address {
            seq![(nlas.last()->Address_0, prefix_len)]
        } else {
            Seq::empty()
        })
    }
}

/// The addresses carried by one address record.
pub open spec fn addrs_of_record(r: AddressRecord) -> Seq<(Ipv4Address, u8)> {
    addrs_of_nlas(r.nlas@, r.prefix_len)
}

/// The addresses of every record labeled with `name`, in record order: what
/// listing the interface's addresses reports.
pub open spec fn listed_addrs(records: Seq<AddressRecord>, name: Seq<char>) -> Seq<
    (Ipv4Address, u8),
>
    decreases records.len(),
{
    if records.len() == 0 {
        Seq::empty()
    } else {
        listed_addrs(records.drop_last(), name) + (if record_has_label(records.last(), name) {
            addrs_of_record(records.last())
        } else {
            Seq::empty()
        })
    }
}

/// Lists the IPv4 addresses assigned to the interface named `ifname`, with
/// their prefix lengths: the addresses of every record in the snapshot that
/// is labeled with that name, in order. An interface with no matching
/// record yields the empty list.
pub fn get_ip_addrs(records: &Vec<AddressRecord>, ifname: &String) -> (out: Vec<(Ipv4Address, u8)>)
    ensures
        out@ == listed_addrs(records@, ifname@),
{
    let mut out: Vec<(Ipv4Address, u8)> = Vec::new();
    let mut i: usize = 0;
    while i < records.len()
        invariant
            i <= records@.len(),
            out@ == listed_addrs(records@.take(i as int), ifname@),
        decreases records@.len() - i,
    {
        let r = &records[i];
        if record_matches(r, ifname) {
            let ghost out_before = out@;
            let mut j: usize = 0;
            while j < r.nlas.len()
                invariant
                    j <= r.nlas@.len(),
                    out@ == out_before + addrs_of_nlas(r.nlas@.take(j as int), r.prefix_len),
                decreases r.nlas@.len() - j,
            {
                match &r.nlas[j] {
                    AddressNla::Address(a) => {
                        out.push((*a, r.prefix_len));
                        proof {
                            assert(r.nlas@.take(j + 1).drop_last() =~= r.nlas@.take(j as int));
                            assert(r.nlas@.take(j + 1).last() == r.nlas@[j as int]);
                            assert(out@ =~= out_before + addrs_of_nlas(
                                r.nlas@.take(j + 1),
                                r.prefix_len,
                            ));
                        }
                    },
                    _ => {
                        proof {
                            assert(r.nlas@.take(j + 1).drop_last() =~= r.nlas@.take(j as int));
                            assert(out@ =~= out_before + addrs_of_nlas(
                                r.nlas@.take(j + 1),
                                r.prefix_len,
                            ));
                        }
                    },
                }
                j += 1;
            }
            proof {
                assert(r.nlas@.take(r.nlas@.len() as int) =~= r.nlas@);
                assert(records@.take(i + 1).drop_last() =~= records@.take(i as int));
                assert(records@.take(i + 1).last() == records@[i as int]);
                assert(out@ =~= listed_addrs(records@.take(i + 1), ifname@));
            }
        } else {
            proof {
                assert(records@.take(i + 1).drop_last() =~= records@.take(i as int));
                assert(records@.take(i + 1).last() == records@[i as int]);
                assert(out@ =~= listed_addrs(records@.take(i + 1), ifname@));
            }
        }
        i += 1;
    }
    proof {
        assert(records@.take(records@.len() as int) =~= records@);
    }
    out
}

} // verus!
