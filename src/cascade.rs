use vstd::prelude::*;

use crate::entities::{
    Client, Fee, Order, OrderFee, Partner, Payment, PostponedPayment, Process, ProcessFee, Seller,
};
use crate::store::{Store, TableName};
use crate::table::{lemma_filter_keeps_id, lemma_filter_member, listed, Entry};
use crate::values::ModelError;

verus! {

/// The record with key `key` in table `t` is the one that a delete of key `id`
/// in table `k` names.
pub open spec fn is_root(k: TableName, id: i32, t: TableName, key: i32) -> bool {
    k == t && key == id
}

impl Store {
    /// A client goes with a delete when it is the deleted record or belongs to
    /// the deleted partner.
    pub open spec fn client_gone(&self, k: TableName, id: i32, e: Entry<Client>) -> bool {
        is_root(k, id, TableName::Clients, e.id) || match e.data.partner_id {
            Some(p) => is_root(k, id, TableName::Partners, p),
            None => false,
        }
    }

    pub open spec fn client_key_gone(&self, k: TableName, id: i32, key: i32) -> bool {
        exists|i: int|
            0 <= i < self.clients@.len() && #[trigger] self.clients@[i].id == key
                && self.client_gone(k, id, self.clients@[i])
    }

    /// An order goes when it is the deleted record, or its client, process or
    /// seller goes.
    pub open spec fn order_gone(&self, k: TableName, id: i32, e: Entry<Order>) -> bool {
        ||| is_root(k, id, TableName::Orders, e.id)
        ||| self.client_key_gone(k, id, e.data.client_id)
        ||| is_root(k, id, TableName::Processes, e.data.process_id)
        ||| is_root(k, id, TableName::Sellers, e.data.seller_id)
    }

    pub open spec fn order_key_gone(&self, k: TableName, id: i32, key: i32) -> bool {
        exists|i: int|
            0 <= i < self.orders@.len() && #[trigger] self.orders@[i].id == key
                && self.order_gone(k, id, self.orders@[i])
    }

    /// A payment goes when it is the deleted record or its order goes.
    pub open spec fn payment_gone(&self, k: TableName, id: i32, e: Entry<Payment>) -> bool {
        is_root(k, id, TableName::Payments, e.id) || self.order_key_gone(k, id, e.data.order_id)
    }

    pub open spec fn payment_key_gone(&self, k: TableName, id: i32, key: i32) -> bool {
        exists|i: int|
            0 <= i < self.payments@.len() && #[trigger] self.payments@[i].id == key
                && self.payment_gone(k, id, self.payments@[i])
    }

    /// A postponed date goes when it is the deleted record or its payment goes.
    pub open spec fn postponed_gone(&self, k: TableName, id: i32, e: Entry<PostponedPayment>) -> bool {
        is_root(k, id, TableName::PostponedPayments, e.id) || self.payment_key_gone(
            k,
            id,
            e.data.payment_id,
        )
    }

    /// A fee of an order goes when it is the deleted record, or its order or fee goes.
    pub open spec fn order_fee_gone(&self, k: TableName, id: i32, e: Entry<OrderFee>) -> bool {
        ||| is_root(k, id, TableName::OrderFees, e.id)
        ||| self.order_key_gone(k, id, e.data.order_id)
        ||| is_root(k, id, TableName::Fees, e.data.fee_id)
    }

    /// A process-fee link goes when it is the deleted record, or its process or fee goes.
    pub open spec fn process_fee_gone(&self, k: TableName, id: i32, e: Entry<ProcessFee>) -> bool {
        ||| is_root(k, id, TableName::ProcessesFees, e.id)
        ||| is_root(k, id, TableName::Processes, e.data.process_id)
        ||| is_root(k, id, TableName::Fees, e.data.fee_id)
    }

    /// This store is `old` after the record with key `id` of table `k` was
    /// deleted together with every record that reaches it through references;
    /// all other records stay, in order, and no table's key counter moves.
    pub open spec fn purged(&self, old: Store, k: TableName, id: i32) -> bool {
        &&& self.processes@ == old.processes@.filter(
            |e: Entry<Process>| !is_root(k, id, TableName::Processes, e.id),
        )
        &&& self.partners@ == old.partners@.filter(
            |e: Entry<Partner>| !is_root(k, id, TableName::Partners, e.id),
        )
        &&& self.sellers@ == old.sellers@.filter(
            |e: Entry<Seller>| !is_root(k, id, TableName::Sellers, e.id),
        )
        &&& self.fees@ == old.fees@.filter(|e: Entry<Fee>| !is_root(k, id, TableName::Fees, e.id))
        &&& self.clients@ == old.clients@.filter(|e: Entry<Client>| !old.client_gone(k, id, e))
        &&& self.orders@ == old.orders@.filter(|e: Entry<Order>| !old.order_gone(k, id, e))
        &&& self.payments@ == old.payments@.filter(|e: Entry<Payment>| !old.payment_gone(k, id, e))
        &&& self.postponed_payments@ == old.postponed_payments@.filter(
            |e: Entry<PostponedPayment>| !old.postponed_gone(k, id, e),
        )
        &&& self.order_fees@ == old.order_fees@.filter(
            |e: Entry<OrderFee>| !old.order_fee_gone(k, id, e),
        )
        &&& self.processes_fees@ == old.processes_fees@.filter(
            |e: Entry<ProcessFee>| !old.process_fee_gone(k, id, e),
        )
        &&& self.processes.next_id == old.processes.next_id
        &&& self.partners.next_id == old.partners.next_id
        &&& self.sellers.next_id == old.sellers.next_id
        &&& self.fees.next_id == old.fees.next_id
        &&& self.clients.next_id == old.clients.next_id
        &&& self.orders.next_id == old.orders.next_id
        &&& self.payments.next_id == old.payments.next_id
        &&& self.postponed_payments.next_id == old.postponed_payments.next_id
        &&& self.order_fees.next_id == old.order_fees.next_id
        &&& self.processes_fees.next_id == old.processes_fees.next_id
    }

    /// Marks the clients that stay, and lists the keys of those that go.
    fn mark_clients(&self, k: TableName, id: i32) -> (r: (Vec<bool>, Vec<i32>))
        ensures
            r.0@.len() == self.clients@.len(),
            forall|i: int|
                0 <= i < r.0@.len() ==> #[trigger] r.0@[i] == !self.client_gone(
                    k,
                    id,
                    self.clients@[i],
                ),
            forall|key: i32| r.1@.contains(key) <==> self.client_key_gone(k, id, key),
    {
        let mut keep: Vec<bool> = Vec::new();
        let mut i: usize = 0;
        while i < self.clients.len()
            invariant
                i <= self.clients@.len(),
                keep@.len() == i,
                forall|j: int|
                    0 <= j < i ==> #[trigger] keep@[j] == !self.client_gone(k, id, self.clients@[j]),
            decreases self.clients@.len() - i,
        {
            let e = self.clients.get(i);
            let from_partner = match e.data.partner_id {
                Some(p) => k == TableName::Partners && p == id,
                None => false,
            };
            keep.push(!((k == TableName::Clients && e.id == id) || from_partner));
            i = i + 1;
        }
        let gone = self.clients.dropped_ids(&keep);
        proof {
            assert forall|key: i32| gone@.contains(key) <==> self.client_key_gone(k, id, key) by {
                if gone@.contains(key) {
                    let j = choose|j: int|
                        0 <= j < self.clients@.len() && !keep@[j] && #[trigger] self.clients@[j].id
                            == key;
                    assert(self.client_gone(k, id, self.clients@[j]));
                }
                if self.client_key_gone(k, id, key) {
                    let j = choose|j: int|
                        0 <= j < self.clients@.len() && #[trigger] self.clients@[j].id == key
                            && self.client_gone(k, id, self.clients@[j]);
                    assert(!keep@[j]);
                }
            }
        }
        (keep, gone)
    }

    /// Marks the orders that stay, and lists the keys of those that go.
    fn mark_orders(&self, k: TableName, id: i32, gone_clients: &Vec<i32>) -> (r: (Vec<bool>, Vec<i32>))
        requires
            forall|key: i32| gone_clients@.contains(key) <==> self.client_key_gone(k, id, key),
        ensures
            r.0@.len() == self.orders@.len(),
            forall|i: int|
                0 <= i < r.0@.len() ==> #[trigger] r.0@[i] == !self.order_gone(
                    k,
                    id,
                    self.orders@[i],
                ),
            forall|key: i32| r.1@.contains(key) <==> self.order_key_gone(k, id, key),
    {
        let mut keep: Vec<bool> = Vec::new();
        let mut i: usize = 0;
        while i < self.orders.len()
            invariant
                i <= self.orders@.len(),
                keep@.len() == i,
                forall|key: i32| gone_clients@.contains(key) <==> self.client_key_gone(k, id, key),
                forall|j: int|
                    0 <= j < i ==> #[trigger] keep@[j] == !self.order_gone(k, id, self.orders@[j]),
            decreases self.orders@.len() - i,
        {
            let e = self.orders.get(i);
            let gone = (k == TableName::Orders && e.id == id) || listed(
                gone_clients,
                e.data.client_id,
            ) || (k == TableName::Processes && e.data.process_id == id) || (k
                == TableName::Sellers && e.data.seller_id == id);
            keep.push(!gone);
            i = i + 1;
        }
        let gone = self.orders.dropped_ids(&keep);
        proof {
            assert forall|key: i32| gone@.contains(key) <==> self.order_key_gone(k, id, key) by {
                if gone@.contains(key) {
                    let j = choose|j: int|
                        0 <= j < self.orders@.len() && !keep@[j] && #[trigger] self.orders@[j].id
                            == key;
                    assert(self.order_gone(k, id, self.orders@[j]));
                }
                if self.order_key_gone(k, id, key) {
                    let j = choose|j: int|
                        0 <= j < self.orders@.len() && #[trigger] self.orders@[j].id == key
                            && self.order_gone(k, id, self.orders@[j]);
                    assert(!keep@[j]);
                }
            }
        }
        (keep, gone)
    }

    /// Marks the payments that stay, and lists the keys of those that go.
    fn mark_payments(&self, k: TableName, id: i32, gone_orders: &Vec<i32>) -> (r: (Vec<bool>, Vec<i32>))
        requires
            forall|key: i32| gone_orders@.contains(key) <==> self.order_key_gone(k, id, key),
        ensures
            r.0@.len() == self.payments@.len(),
            forall|i: int|
                0 <= i < r.0@.len() ==> #[trigger] r.0@[i] == !self.payment_gone(
                    k,
                    id,
                    self.payments@[i],
                ),
            forall|key: i32| r.1@.contains(key) <==> self.payment_key_gone(k, id, key),
    {
        let mut keep: Vec<bool> = Vec::new();
        let mut i: usize = 0;
        while i < self.payments.len()
            invariant
                i <= self.payments@.len(),
                keep@.len() == i,
                forall|key: i32| gone_orders@.contains(key) <==> self.order_key_gone(k, id, key),
                forall|j: int|
                    0 <= j < i ==> #[trigger] keep@[j] == !self.payment_gone(
                        k,
                        id,
                        self.payments@[j],
                    ),
            decreases self.payments@.len() - i,
        {
            let e = self.payments.get(i);
            let gone = (k == TableName::Payments && e.id == id) || listed(
                gone_orders,
                e.data.order_id,
            );
            keep.push(!gone);
            i = i + 1;
        }
        let gone = self.payments.dropped_ids(&keep);
        proof {
            assert forall|key: i32| gone@.contains(key) <==> self.payment_key_gone(k, id, key) by {
                if gone@.contains(key) {
                    let j = choose|j: int|
                        0 <= j < self.payments@.len() && !keep@[j] && #[trigger] self.payments@[j].id
                            == key;
                    assert(self.payment_gone(k, id, self.payments@[j]));
                }
                if self.payment_key_gone(k, id, key) {
                    let j = choose|j: int|
                        0 <= j < self.payments@.len() && #[trigger] self.payments@[j].id == key
                            && self.payment_gone(k, id, self.payments@[j]);
                    assert(!keep@[j]);
                }
            }
        }
        (keep, gone)
    }

    /// Marks the postponed dates that stay.
    fn mark_postponed(&self, k: TableName, id: i32, gone_payments: &Vec<i32>) -> (keep: Vec<bool>)
        requires
            forall|key: i32| gone_payments@.contains(key) <==> self.payment_key_gone(k, id, key),
        ensures
            keep@.len() == self.postponed_payments@.len(),
            forall|i: int|
                0 <= i < keep@.len() ==> #[trigger] keep@[i] == !self.postponed_gone(
                    k,
                    id,
                    self.postponed_payments@[i],
                ),
    {
        let mut keep: Vec<bool> = Vec::new();
        let mut i: usize = 0;
        while i < self.postponed_payments.len()
            invariant
                i <= self.postponed_payments@.len(),
                keep@.len() == i,
                forall|key: i32| gone_payments@.contains(key) <==> self.payment_key_gone(k, id, key),
                forall|j: int|
                    0 <= j < i ==> #[trigger] keep@[j] == !self.postponed_gone(
                        k,
                        id,
                        self.postponed_payments@[j],
                    ),
            decreases self.postponed_payments@.len() - i,
        {
            let e = self.postponed_payments.get(i);
            let gone = (k == TableName::PostponedPayments && e.id == id) || listed(
                gone_payments,
                e.data.payment_id,
            );
            keep.push(!gone);
            i = i + 1;
        }
        keep
    }

    /// Marks the fees of orders that stay.
    fn mark_order_fees(&self, k: TableName, id: i32, gone_orders: &Vec<i32>) -> (keep: Vec<bool>)
        requires
            forall|key: i32| gone_orders@.contains(key) <==> self.order_key_gone(k, id, key),
        ensures
            keep@.len() == self.order_fees@.len(),
            forall|i: int|
                0 <= i < keep@.len() ==> #[trigger] keep@[i] == !self.order_fee_gone(
                    k,
                    id,
                    self.order_fees@[i],
                ),
    {
        let mut keep: Vec<bool> = Vec::new();
        let mut i: usize = 0;
        while i < self.order_fees.len()
            invariant
                i <= self.order_fees@.len(),
                keep@.len() == i,
                forall|key: i32| gone_orders@.contains(key) <==> self.order_key_gone(k, id, key),
                forall|j: int|
                    0 <= j < i ==> #[trigger] keep@[j] == !self.order_fee_gone(
                        k,
                        id,
                        self.order_fees@[j],
                    ),
            decreases self.order_fees@.len() - i,
        {
            let e = self.order_fees.get(i);
            let gone = (k == TableName::OrderFees && e.id == id) || listed(
                gone_orders,
                e.data.order_id,
            ) || (k == TableName::Fees && e.data.fee_id == id);
            keep.push(!gone);
            i = i + 1;
        }
        keep
    }

    /// Marks the process-fee links that stay.
    fn mark_processes_fees(&self, k: TableName, id: i32) -> (keep: Vec<bool>)
        ensures
            keep@.len() == self.processes_fees@.len(),
            forall|i: int|
                0 <= i < keep@.len() ==> #[trigger] keep@[i] == !self.process_fee_gone(
                    k,
                    id,
                    self.processes_fees@[i],
                ),
    {
        let mut keep: Vec<bool> = Vec::new();
        let mut i: usize = 0;
        while i < self.processes_fees.len()
            invariant
                i <= self.processes_fees@.len(),
                keep@.len() == i,
                forall|j: int|
                    0 <= j < i ==> #[trigger] keep@[j] == !self.process_fee_gone(
                        k,
                        id,
                        self.processes_fees@[j],
                    ),
            decreases self.processes_fees@.len() - i,
        {
            let e = self.processes_fees.get(i);
            let gone = (k == TableName::ProcessesFees && e.id == id) || (k == TableName::Processes
                && e.data.process_id == id) || (k == TableName::Fees && e.data.fee_id == id);
            keep.push(!gone);
            i = i + 1;
        }
        keep
    }

    /// Deletes the record with key `id` of table `k` and, as cascading foreign
    /// keys do, every record that reaches it through its references.
    pub fn purge(&mut self, k: TableName, id: i32)
        requires
            old(self).wf(),
        ensures
            final(self).wf(),
            final(self).purged(*old(self), k, id),
    {
        let ghost s = *self;
        let keep_processes = self.processes.keep_all_but(k == TableName::Processes, id);
        let keep_partners = self.partners.keep_all_but(k == TableName::Partners, id);
        let keep_sellers = self.sellers.keep_all_but(k == TableName::Sellers, id);
        let keep_fees = self.fees.keep_all_but(k == TableName::Fees, id);
        let (keep_clients, gone_clients) = self.mark_clients(k, id);
        let (keep_orders, gone_orders) = self.mark_orders(k, id, &gone_clients);
        let (keep_payments, gone_payments) = self.mark_payments(k, id, &gone_orders);
        let keep_postponed = self.mark_postponed(k, id, &gone_payments);
        let keep_order_fees = self.mark_order_fees(k, id, &gone_orders);
        let keep_processes_fees = self.mark_processes_fees(k, id);
        self.processes.retain(
            &keep_processes,
            Ghost(|e: Entry<Process>| !is_root(k, id, TableName::Processes, e.id)),
        );
        self.partners.retain(
            &keep_partners,
            Ghost(|e: Entry<Partner>| !is_root(k, id, TableName::Partners, e.id)),
        );
        self.sellers.retain(
            &keep_sellers,
            Ghost(|e: Entry<Seller>| !is_root(k, id, TableName::Sellers, e.id)),
        );
        self.fees.retain(&keep_fees, Ghost(|e: Entry<Fee>| !is_root(k, id, TableName::Fees, e.id)));
        self.clients.retain(&keep_clients, Ghost(|e: Entry<Client>| !s.client_gone(k, id, e)));
        self.orders.retain(&keep_orders, Ghost(|e: Entry<Order>| !s.order_gone(k, id, e)));
        self.payments.retain(&keep_payments, Ghost(|e: Entry<Payment>| !s.payment_gone(k, id, e)));
        self.postponed_payments.retain(
            &keep_postponed,
            Ghost(|e: Entry<PostponedPayment>| !s.postponed_gone(k, id, e)),
        );
        self.order_fees.retain(
            &keep_order_fees,
            Ghost(|e: Entry<OrderFee>| !s.order_fee_gone(k, id, e)),
        );
        self.processes_fees.retain(
            &keep_processes_fees,
            Ghost(|e: Entry<ProcessFee>| !s.process_fee_gone(k, id, e)),
        );
        proof {
            lemma_purge_links(s, *self, k, id);
        }
    }
}

impl Store {
    /// Table `t` holds a record with identifier `pid`.
    pub open spec fn table_has_pid(&self, t: TableName, pid: u128) -> bool {
        match t {
            TableName::Processes => self.processes.has_pid(pid),
            TableName::Partners => self.partners.has_pid(pid),
            TableName::Sellers => self.sellers.has_pid(pid),
            TableName::Clients => self.clients.has_pid(pid),
            TableName::Fees => self.fees.has_pid(pid),
            TableName::OrderFees => self.order_fees.has_pid(pid),
            TableName::Orders => self.orders.has_pid(pid),
            TableName::Payments => self.payments.has_pid(pid),
            TableName::PostponedPayments => self.postponed_payments.has_pid(pid),
            TableName::ProcessesFees => self.processes_fees.has_pid(pid),
        }
    }

    /// The key of the record of table `t` with identifier `pid`.
    pub open spec fn table_key_of(&self, t: TableName, pid: u128) -> i32 {
        match t {
            TableName::Processes => self.processes.key_of(pid),
            TableName::Partners => self.partners.key_of(pid),
            TableName::Sellers => self.sellers.key_of(pid),
            TableName::Clients => self.clients.key_of(pid),
            TableName::Fees => self.fees.key_of(pid),
            TableName::OrderFees => self.order_fees.key_of(pid),
            TableName::Orders => self.orders.key_of(pid),
            TableName::Payments => self.payments.key_of(pid),
            TableName::PostponedPayments => self.postponed_payments.key_of(pid),
            TableName::ProcessesFees => self.processes_fees.key_of(pid),
        }
    }

    /// The key of the record of table `t` with identifier `pid`, if there is one.
    pub fn key_in(&self, t: TableName, pid: u128) -> (r: Option<i32>)
        requires
            self.wf(),
        ensures
            r is None <==> !self.table_has_pid(t, pid),
            r matches Some(key) ==> key == self.table_key_of(t, pid),
    {
        match t {
            TableName::Processes => self.processes.key_of_pid(pid),
            TableName::Partners => self.partners.key_of_pid(pid),
            TableName::Sellers => self.sellers.key_of_pid(pid),
            TableName::Clients => self.clients.key_of_pid(pid),
            TableName::Fees => self.fees.key_of_pid(pid),
            TableName::OrderFees => self.order_fees.key_of_pid(pid),
            TableName::Orders => self.orders.key_of_pid(pid),
            TableName::Payments => self.payments.key_of_pid(pid),
            TableName::PostponedPayments => self.postponed_payments.key_of_pid(pid),
            TableName::ProcessesFees => self.processes_fees.key_of_pid(pid),
        }
    }

    /// Deletes the record of table `t` with identifier `pid`, together with
    /// every record that reaches it through references.
    pub fn delete(&mut self, t: TableName, pid: u128) -> (r: Result<(), ModelError>)
        requires
            old(self).wf(),
        ensures
            final(self).wf(),
            r is Err <==> !old(self).table_has_pid(t, pid),
            r is Err ==> r == Err::<(), ModelError>(ModelError::EntityNotFound) && *final(self)
                == *old(self),
            r is Ok ==> final(self).purged(*old(self), t, old(self).table_key_of(t, pid)),
    {
        match self.key_in(t, pid) {
            Some(key) => {
                self.purge(t, key);
                Ok(())
            },
            None => Err(ModelError::EntityNotFound),
        }
    }
}

/// After a purge every surviving reference still names a surviving record.
proof fn lemma_purge_links(s: Store, t: Store, k: TableName, id: i32)
    requires
        s.wf(),
        t.purged(s, k, id),
    ensures
        t.linked(),
{
    let p_processes = |e: Entry<Process>| !is_root(k, id, TableName::Processes, e.id);
    let p_partners = |e: Entry<Partner>| !is_root(k, id, TableName::Partners, e.id);
    let p_sellers = |e: Entry<Seller>| !is_root(k, id, TableName::Sellers, e.id);
    let p_fees = |e: Entry<Fee>| !is_root(k, id, TableName::Fees, e.id);
    let p_clients = |e: Entry<Client>| !s.client_gone(k, id, e);
    let p_orders = |e: Entry<Order>| !s.order_gone(k, id, e);
    let p_payments = |e: Entry<Payment>| !s.payment_gone(k, id, e);
    let p_postponed = |e: Entry<PostponedPayment>| !s.postponed_gone(k, id, e);
    let p_order_fees = |e: Entry<OrderFee>| !s.order_fee_gone(k, id, e);
    let p_processes_fees = |e: Entry<ProcessFee>| !s.process_fee_gone(k, id, e);
    assert forall|n: int| 0 <= n < t.clients@.len() implies match (
    #[trigger] t.clients@[n]).data.partner_id {
        Some(p) => t.partners.has_id(p),
        None => true,
    } by {
        let j = lemma_filter_member(s.clients@, p_clients, n);
        let c = s.clients@[j];
        if let Some(p) = c.data.partner_id {
            let pi = choose|pi: int| 0 <= pi < s.partners@.len() && #[trigger] s.partners@[pi].id == p;
            lemma_filter_keeps_id(s.partners@, p_partners, pi);
        }
    }
    assert forall|n: int| 0 <= n < t.orders@.len() implies {
        let o = #[trigger] t.orders@[n];
        &&& t.clients.has_id(o.data.client_id)
        &&& t.processes.has_id(o.data.process_id)
        &&& t.sellers.has_id(o.data.seller_id)
    } by {
        let j = lemma_filter_member(s.orders@, p_orders, n);
        let o = s.orders@[j];
        let ci = choose|ci: int|
            0 <= ci < s.clients@.len() && #[trigger] s.clients@[ci].id == o.data.client_id;
        lemma_filter_keeps_id(s.clients@, p_clients, ci);
        let pi = choose|pi: int|
            0 <= pi < s.processes@.len() && #[trigger] s.processes@[pi].id == o.data.process_id;
        lemma_filter_keeps_id(s.processes@, p_processes, pi);
        let si = choose|si: int|
            0 <= si < s.sellers@.len() && #[trigger] s.sellers@[si].id == o.data.seller_id;
        lemma_filter_keeps_id(s.sellers@, p_sellers, si);
    }
    assert forall|n: int| 0 <= n < t.order_fees@.len() implies {
        let f = #[trigger] t.order_fees@[n];
        &&& t.fees.has_id(f.data.fee_id)
        &&& t.orders.has_id(f.data.order_id)
    } by {
        let j = lemma_filter_member(s.order_fees@, p_order_fees, n);
        let f = s.order_fees@[j];
        let fi = choose|fi: int| 0 <= fi < s.fees@.len() && #[trigger] s.fees@[fi].id == f.data.fee_id;
        lemma_filter_keeps_id(s.fees@, p_fees, fi);
        let oi = choose|oi: int|
            0 <= oi < s.orders@.len() && #[trigger] s.orders@[oi].id == f.data.order_id;
        lemma_filter_keeps_id(s.orders@, p_orders, oi);
    }
    assert forall|n: int| 0 <= n < t.payments@.len() implies t.orders.has_id(
        (#[trigger] t.payments@[n]).data.order_id,
    ) by {
        let j = lemma_filter_member(s.payments@, p_payments, n);
        let p = s.payments@[j];
        let oi = choose|oi: int|
            0 <= oi < s.orders@.len() && #[trigger] s.orders@[oi].id == p.data.order_id;
        lemma_filter_keeps_id(s.orders@, p_orders, oi);
    }
    assert forall|n: int| 0 <= n < t.postponed_payments@.len() implies t.payments.has_id(
        (#[trigger] t.postponed_payments@[n]).data.payment_id,
    ) by {
        let j = lemma_filter_member(s.postponed_payments@, p_postponed, n);
        let q = s.postponed_payments@[j];
        let pi = choose|pi: int|
            0 <= pi < s.payments@.len() && #[trigger] s.payments@[pi].id == q.data.payment_id;
        lemma_filter_keeps_id(s.payments@, p_payments, pi);
    }
    assert forall|n: int| 0 <= n < t.processes_fees@.len() implies {
        let f = #[trigger] t.processes_fees@[n];
        &&& t.processes.has_id(f.data.process_id)
        &&& t.fees.has_id(f.data.fee_id)
    } by {
        let j = lemma_filter_member(s.processes_fees@, p_processes_fees, n);
        let f = s.processes_fees@[j];
        let pi = choose|pi: int|
            0 <= pi < s.processes@.len() && #[trigger] s.processes@[pi].id == f.data.process_id;
        lemma_filter_keeps_id(s.processes@, p_processes, pi);
        let fi = choose|fi: int| 0 <= fi < s.fees@.len() && #[trigger] s.fees@[fi].id == f.data.fee_id;
        lemma_filter_keeps_id(s.fees@, p_fees, fi);
    }
}

} // verus!
