use vstd::prelude::*;

use crate::cascade::is_root;
use crate::entities::{
    Client, Fee, Order, OrderFee, Partner, Payment, PostponedPayment, Process, ProcessFee, Seller,
};
use crate::store::{Store, TableName};
use crate::table::{lemma_filter_member, Entry, Table};

verus! {

/// A record created under identifier `pid` can be found by that identifier
/// afterwards, with the fields it was created with, under the key it got.
pub proof fn lemma_created_is_retrievable<R>(
    before: Table<R>,
    after: Table<R>,
    id: i32,
    pid: u128,
    now: i64,
    data: R,
)
    requires
        after.wf(),
        before.inserted(after, id, pid, now, data),
    ensures
        after.has_pid(pid),
        after.key_of(pid) == id,
        after@[after.pos_of(pid)] == (Entry { id, pid, created_at: now, updated_at: now, data }),
{
    let n = before@.len() as int;
    assert(after@[n].pid == pid);
    after.lemma_pos_of(n);
}

/// Updating a record keeps its key, identifier and creation time: found by
/// the same identifier, it carries the new fields and the time of the update.
pub proof fn lemma_update_keeps_identity<R>(t: Table<R>, after: Table<R>, i: int, data: R, now: i64)
    requires
        t.wf(),
        after.wf(),
        0 <= i < t@.len(),
        after@ == t.rewritten(i, data, now),
    ensures
        after.has_pid(t@[i].pid),
        after.key_of(t@[i].pid) == t@[i].id,
        after@[after.pos_of(t@[i].pid)] == (Entry {
            id: t@[i].id,
            pid: t@[i].pid,
            created_at: t@[i].created_at,
            updated_at: now,
            data,
        }),
{
    assert(after@[i].pid == t@[i].pid);
    after.lemma_pos_of(i);
}

/// A filter that rejects the record with identifier `pid` leaves no record
/// with that identifier.
proof fn lemma_filter_drops_pid<R>(t: Table<R>, pred: spec_fn(Entry<R>) -> bool, pid: u128)
    requires
        t.wf(),
        t.has_pid(pid),
        !pred(t@[t.pos_of(pid)]),
    ensures
        forall|k: int| 0 <= k < t@.filter(pred).len() ==> #[trigger] t@.filter(pred)[k].pid != pid,
{
    assert forall|k: int| 0 <= k < t@.filter(pred).len() implies #[trigger] t@.filter(pred)[k].pid
        != pid by {
        let j = lemma_filter_member(t@, pred, k);
        t@.lemma_filter_pred(pred, k);
        if t@[j].pid == pid {
            t.lemma_pos_of(j);
        }
    }
}

/// After a delete, the deleted record no longer appears in its table's listing.
pub proof fn lemma_deleted_is_gone(before: Store, after: Store, t: TableName, pid: u128)
    requires
        before.wf(),
        before.table_has_pid(t, pid),
        after.purged(before, t, before.table_key_of(t, pid)),
    ensures
        !after.table_has_pid(t, pid),
{
    let key = before.table_key_of(t, pid);
    match t {
        TableName::Processes => {
            let s = before.processes;
            s.lemma_pos_of(s.pos_of(pid));
            lemma_filter_drops_pid(s, |e: Entry<Process>| !is_root(t, key, TableName::Processes, e.id), pid);
        },
        TableName::Partners => {
            let s = before.partners;
            s.lemma_pos_of(s.pos_of(pid));
            lemma_filter_drops_pid(s, |e: Entry<Partner>| !is_root(t, key, TableName::Partners, e.id), pid);
        },
        TableName::Sellers => {
            let s = before.sellers;
            s.lemma_pos_of(s.pos_of(pid));
            lemma_filter_drops_pid(s, |e: Entry<Seller>| !is_root(t, key, TableName::Sellers, e.id), pid);
        },
        TableName::Fees => {
            let s = before.fees;
            s.lemma_pos_of(s.pos_of(pid));
            lemma_filter_drops_pid(s, |e: Entry<Fee>| !is_root(t, key, TableName::Fees, e.id), pid);
        },
        TableName::Clients => {
            let s = before.clients;
            s.lemma_pos_of(s.pos_of(pid));
            lemma_filter_drops_pid(s, |e: Entry<Client>| !before.client_gone(t, key, e), pid);
        },
        TableName::Orders => {
            let s = before.orders;
            s.lemma_pos_of(s.pos_of(pid));
            lemma_filter_drops_pid(s, |e: Entry<Order>| !before.order_gone(t, key, e), pid);
        },
        TableName::Payments => {
            let s = before.payments;
            s.lemma_pos_of(s.pos_of(pid));
            lemma_filter_drops_pid(s, |e: Entry<Payment>| !before.payment_gone(t, key, e), pid);
        },
        TableName::PostponedPayments => {
            let s = before.postponed_payments;
            s.lemma_pos_of(s.pos_of(pid));
            lemma_filter_drops_pid(
                s,
                |e: Entry<PostponedPayment>| !before.postponed_gone(t, key, e),
                pid,
            );
        },
        TableName::OrderFees => {
            let s = before.order_fees;
            s.lemma_pos_of(s.pos_of(pid));
            lemma_filter_drops_pid(s, |e: Entry<OrderFee>| !before.order_fee_gone(t, key, e), pid);
        },
        TableName::ProcessesFees => {
            let s = before.processes_fees;
            s.lemma_pos_of(s.pos_of(pid));
            lemma_filter_drops_pid(
                s,
                |e: Entry<ProcessFee>| !before.process_fee_gone(t, key, e),
                pid,
            );
        },
    }
}

} // verus!
