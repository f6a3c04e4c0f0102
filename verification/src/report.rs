//! The one-line reports that a process prints about its view and about
//! peers it cannot reach.

use crate::text::{append_decimal, decimal};
use crate::view::{append_id_list, id_list};
use vstd::prelude::*;

verus! {

/// The report of a view change:
/// `{peer_id: <p>, view_id: <v>, leader: <l>, memb_list: [<id>,<id>,...]}`.
pub open spec fn view_report(peer_id: u32, view_id: u32, leader: u32, members: Seq<u32>) -> Seq<
    char,
> {
    "{peer_id: "@ + decimal(peer_id as nat) + ", view_id: "@ + decimal(view_id as nat)
        + ", leader: "@ + decimal(leader as nat) + ", memb_list: ["@ + id_list(members) + "]}"@
}

/// The report of a peer that does not answer:
/// `{peer_id: <p>, view_id: <v>, leader: <l>, message:"peer <t> unreachable"}`,
/// with ` (leader)` after the peer's identifier where that peer leads.
pub open spec fn unreachable_report(peer_id: u32, view_id: u32, leader: u32, target: u32) -> Seq<
    char,
> {
    "{peer_id: "@ + decimal(peer_id as nat) + ", view_id: "@ + decimal(view_id as nat)
        + ", leader: "@ + decimal(leader as nat) + ", message:\"peer "@ + decimal(target as nat)
        + (if target == leader {
        " (leader) unreachable\"}"@
    } else {
        " unreachable\"}"@
    })
}

/// Writes the report of a view change.
pub fn view_change_line(peer_id: u32, view_id: u32, leader: u32, members: &Vec<u32>) -> (r: String)
    ensures
        r@ == view_report(peer_id, view_id, leader, members@),
{
    let mut out = String::from_str("{peer_id: ");
    append_decimal(&mut out, peer_id as u64);
    out.append(", view_id: ");
    append_decimal(&mut out, view_id as u64);
    out.append(", leader: ");
    append_decimal(&mut out, leader as u64);
    out.append(", memb_list: [");
    append_id_list(&mut out, members);
    out.append("]}");
    out
}

/// Writes the report of a peer that does not answer.
pub fn unreachable_line(peer_id: u32, view_id: u32, leader: u32, target: u32) -> (r: String)
    ensures
        r@ == unreachable_report(peer_id, view_id, leader, target),
{
    let mut out = String::from_str("{peer_id: ");
    append_decimal(&mut out, peer_id as u64);
    out.append(", view_id: ");
    append_decimal(&mut out, view_id as u64);
    out.append(", leader: ");
    append_decimal(&mut out, leader as u64);
    out.append(", message:\"peer ");
    append_decimal(&mut out, target as u64);
    if target == leader {
        out.append(" (leader) unreachable\"}");
    } else {
        out.append(" unreachable\"}");
    }
    out
}

} // verus!
