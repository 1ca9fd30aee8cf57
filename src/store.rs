use vstd::prelude::*;

use crate::entities::{
    Client, Fee, Order, OrderFee, Partner, Payment, PostponedPayment, Process, ProcessFee, Seller,
};
use crate::requests::{
    CreateNewClient, CreateNewFee, CreateNewOrderFee, CreateNewPartner, CreateNewPayment,
    CreateNewPostponedPayment, CreateNewProcess, CreateNewProcessFee, CreateNewSeller,
};
use crate::table::{lemma_keys_kept, Entry, Table};
use crate::values::{fresh_pid, ModelError};

verus! {

/// The tables of the store.
#[derive(Clone, Copy, Debug, PartialEq, Eq, Structural)]
pub enum TableName {
    Processes,
    Partners,
    Sellers,
    Clients,
    Fees,
    OrderFees,
    Orders,
    Payments,
    PostponedPayments,
    ProcessesFees,
}

/// All records of the business, one table per entity.
pub struct Store {
    pub processes: Table<Process>,
    pub partners: Table<Partner>,
    pub sellers: Table<Seller>,
    pub clients: Table<Client>,
    pub fees: Table<Fee>,
    pub order_fees: Table<OrderFee>,
    pub orders: Table<Order>,
    pub payments: Table<Payment>,
    pub postponed_payments: Table<PostponedPayment>,
    pub processes_fees: Table<ProcessFee>,
}

impl Store {
    /// Every table is well formed and every reference names a record that exists.
    pub open spec fn wf(&self) -> bool {
        &&& self.processes.wf()
        &&& self.partners.wf()
        &&& self.sellers.wf()
        &&& self.clients.wf()
        &&& self.fees.wf()
        &&& self.order_fees.wf()
        &&& self.orders.wf()
        &&& self.payments.wf()
        &&& self.postponed_payments.wf()
        &&& self.processes_fees.wf()
        &&& self.linked()
    }

    /// Referential integrity: each key stored in a record names a record of the
    /// table it points into.
    pub open spec fn linked(&self) -> bool {
        &&& forall|i: int|
            0 <= i < self.clients@.len() ==> match (#[trigger] self.clients@[i]).data.partner_id {
                Some(p) => self.partners.has_id(p),
                None => true,
            }
        &&& forall|i: int|
            0 <= i < self.orders@.len() ==> {
                let o = #[trigger] self.orders@[i];
                &&& self.clients.has_id(o.data.client_id)
                &&& self.processes.has_id(o.data.process_id)
                &&& self.sellers.has_id(o.data.seller_id)
            }
        &&& forall|i: int|
            0 <= i < self.order_fees@.len() ==> {
                let f = #[trigger] self.order_fees@[i];
                &&& self.fees.has_id(f.data.fee_id)
                &&& self.orders.has_id(f.data.order_id)
            }
        &&& forall|i: int|
            0 <= i < self.payments@.len() ==> self.orders.has_id(
                (#[trigger] self.payments@[i]).data.order_id,
            )
        &&& forall|i: int|
            0 <= i < self.postponed_payments@.len() ==> self.payments.has_id(
                (#[trigger] self.postponed_payments@[i]).data.payment_id,
            )
        &&& forall|i: int|
            0 <= i < self.processes_fees@.len() ==> {
                let f = #[trigger] self.processes_fees@[i];
                &&& self.processes.has_id(f.data.process_id)
                &&& self.fees.has_id(f.data.fee_id)
            }
    }

    /// Every table but `t` is the same in both stores.
    pub open spec fn same_except(&self, other: Store, t: TableName) -> bool {
        &&& t != TableName::Processes ==> self.processes == other.processes
        &&& t != TableName::Partners ==> self.partners == other.partners
        &&& t != TableName::Sellers ==> self.sellers == other.sellers
        &&& t != TableName::Clients ==> self.clients == other.clients
        &&& t != TableName::Fees ==> self.fees == other.fees
        &&& t != TableName::OrderFees ==> self.order_fees == other.order_fees
        &&& t != TableName::Orders ==> self.orders == other.orders
        &&& t != TableName::Payments ==> self.payments == other.payments
        &&& t != TableName::PostponedPayments ==> self.postponed_payments
            == other.postponed_payments
        &&& t != TableName::ProcessesFees ==> self.processes_fees == other.processes_fees
    }

    /// Every record of `old` is still in this store, at its place and
    /// unchanged; new records may follow.
    pub open spec fn grown_from(&self, old: Store) -> bool {
        &&& grows(old.processes@, self.processes@)
        &&& grows(old.partners@, self.partners@)
        &&& grows(old.sellers@, self.sellers@)
        &&& grows(old.clients@, self.clients@)
        &&& grows(old.fees@, self.fees@)
        &&& grows(old.order_fees@, self.order_fees@)
        &&& grows(old.orders@, self.orders@)
        &&& grows(old.payments@, self.payments@)
        &&& grows(old.postponed_payments@, self.postponed_payments@)
        &&& grows(old.processes_fees@, self.processes_fees@)
    }

    /// A store with every table empty.
    pub fn new() -> (s: Store)
        ensures
            s.wf(),
            s.processes@.len() == 0,
            s.processes.next_id == 1,
            s.partners@.len() == 0,
            s.partners.next_id == 1,
            s.sellers@.len() == 0,
            s.sellers.next_id == 1,
            s.clients@.len() == 0,
            s.clients.next_id == 1,
            s.fees@.len() == 0,
            s.fees.next_id == 1,
            s.order_fees@.len() == 0,
            s.order_fees.next_id == 1,
            s.orders@.len() == 0,
            s.orders.next_id == 1,
            s.payments@.len() == 0,
            s.payments.next_id == 1,
            s.postponed_payments@.len() == 0,
            s.postponed_payments.next_id == 1,
            s.processes_fees@.len() == 0,
            s.processes_fees.next_id == 1,
    {
        Store {
            processes: Table::new(),
            partners: Table::new(),
            sellers: Table::new(),
            clients: Table::new(),
            fees: Table::new(),
            order_fees: Table::new(),
            orders: Table::new(),
            payments: Table::new(),
            postponed_payments: Table::new(),
            processes_fees: Table::new(),
        }
    }

    /// Adds a process with identifier `pid`, written at `now`.
    pub fn insert_process(&mut self, pid: u128, now: i64, req: CreateNewProcess) -> (r: Result<
        i32,
        ModelError,
    >)
        requires
            old(self).wf(),
        ensures
            final(self).wf(),
            old(self).processes.insert_verdict(pid, r),
            r is Err ==> *final(self) == *old(self),
            r matches Ok(id) ==> final(self).same_except(*old(self), TableName::Processes)
                && old(self).processes.inserted(
                final(self).processes,
                id,
                pid,
                now,
                Process { case_type: req.case_type },
            ),
    {
        let ghost before = *self;
        let r = self.processes.insert(pid, now, Process { case_type: req.case_type });
        proof {
            lemma_keys_kept(before.processes, self.processes);
        }
        r
    }

    /// Adds a partner with identifier `pid`, written at `now`.
    pub fn insert_partner(&mut self, pid: u128, now: i64, req: CreateNewPartner) -> (r: Result<
        i32,
        ModelError,
    >)
        requires
            old(self).wf(),
        ensures
            final(self).wf(),
            old(self).partners.insert_verdict(pid, r),
            r is Err ==> *final(self) == *old(self),
            r matches Ok(id) ==> final(self).same_except(*old(self), TableName::Partners)
                && old(self).partners.inserted(
                final(self).partners,
                id,
                pid,
                now,
                Partner {
                    name: req.name,
                    information: req.information,
                    phone: req.phone,
                    email: req.email,
                },
            ),
    {
        let ghost before = *self;
        let data = Partner {
            name: req.name,
            information: req.information,
            phone: req.phone,
            email: req.email,
        };
        let r = self.partners.insert(pid, now, data);
        proof {
            lemma_keys_kept(before.partners, self.partners);
        }
        r
    }

    /// Adds a seller with identifier `pid`, written at `now`.
    pub fn insert_seller(&mut self, pid: u128, now: i64, req: CreateNewSeller) -> (r: Result<
        i32,
        ModelError,
    >)
        requires
            old(self).wf(),
        ensures
            final(self).wf(),
            old(self).sellers.insert_verdict(pid, r),
            r is Err ==> *final(self) == *old(self),
            r matches Ok(id) ==> final(self).same_except(*old(self), TableName::Sellers)
                && old(self).sellers.inserted(
                final(self).sellers,
                id,
                pid,
                now,
                Seller { name: req.name },
            ),
    {
        let ghost before = *self;
        let r = self.sellers.insert(pid, now, Seller { name: req.name });
        proof {
            lemma_keys_kept(before.sellers, self.sellers);
        }
        r
    }

    /// Adds a fee with identifier `pid`, written at `now`.
    pub fn insert_fee(&mut self, pid: u128, now: i64, req: CreateNewFee) -> (r: Result<
        i32,
        ModelError,
    >)
        requires
            old(self).wf(),
        ensures
            final(self).wf(),
            old(self).fees.insert_verdict(pid, r),
            r is Err ==> *final(self) == *old(self),
            r matches Ok(id) ==> final(self).same_except(*old(self), TableName::Fees)
                && old(self).fees.inserted(
                final(self).fees,
                id,
                pid,
                now,
                Fee { fee: req.fee, fee_type: req.fee_type },
            ),
    {
        let ghost before = *self;
        let r = self.fees.insert(pid, now, Fee { fee: req.fee, fee_type: req.fee_type });
        proof {
            lemma_keys_kept(before.fees, self.fees);
        }
        r
    }

    /// The partner key that a client's request names, once resolved.
    pub open spec fn partner_key(&self, partner_pid: Option<u128>) -> Option<i32> {
        match partner_pid {
            Some(pp) => Some(self.partners.key_of(pp)),
            None => None,
        }
    }

    /// The request names no partner, or one that exists.
    pub open spec fn partner_known(&self, partner_pid: Option<u128>) -> bool {
        match partner_pid {
            Some(pp) => self.partners.has_pid(pp),
            None => true,
        }
    }

    /// The client record that a request describes, with its partner resolved.
    pub open spec fn client_of(&self, req: CreateNewClient) -> Client {
        Client {
            name: req.name,
            contact: req.contact,
            phone: req.phone,
            phone2: req.phone2,
            email: req.email,
            partner_id: self.partner_key(req.partner_pid),
        }
    }

    /// Resolves the partner that a client request names.
    fn resolve_partner(&self, partner_pid: Option<u128>) -> (r: Result<Option<i32>, ModelError>)
        requires
            self.wf(),
        ensures
            r is Ok <==> self.partner_known(partner_pid),
            r is Err ==> r == Err::<Option<i32>, ModelError>(ModelError::EntityNotFound),
            r matches Ok(k) ==> k == self.partner_key(partner_pid) && match k {
                Some(p) => self.partners.has_id(p),
                None => true,
            },
    {
        match partner_pid {
            Some(pp) => match self.partners.index_of_pid(pp) {
                Some(i) => Ok(Some(self.partners.get(i).id)),
                None => Err(ModelError::EntityNotFound),
            },
            None => Ok(None),
        }
    }

    /// Adds a client with identifier `pid`, written at `now`; a partner named
    /// by the request must exist.
    pub fn insert_client(&mut self, pid: u128, now: i64, req: CreateNewClient) -> (r: Result<
        i32,
        ModelError,
    >)
        requires
            old(self).wf(),
        ensures
            final(self).wf(),
            !old(self).partner_known(req.partner_pid) ==> r == Err::<i32, ModelError>(
                ModelError::EntityNotFound,
            ),
            old(self).partner_known(req.partner_pid) ==> old(self).clients.insert_verdict(pid, r),
            r is Err ==> *final(self) == *old(self),
            r matches Ok(id) ==> final(self).same_except(*old(self), TableName::Clients)
                && old(self).clients.inserted(
                final(self).clients,
                id,
                pid,
                now,
                old(self).client_of(req),
            ),
    {
        let ghost before = *self;
        let partner_id = match self.resolve_partner(req.partner_pid) {
            Ok(k) => k,
            Err(e) => return Err(e),
        };
        let data = Client {
            name: req.name,
            contact: req.contact,
            phone: req.phone,
            phone2: req.phone2,
            email: req.email,
            partner_id,
        };
        let r = self.clients.insert(pid, now, data);
        proof {
            lemma_keys_kept(before.clients, self.clients);
            assert forall|i: int| 0 <= i < self.clients@.len() implies match (
            #[trigger] self.clients@[i]).data.partner_id {
                Some(p) => self.partners.has_id(p),
                None => true,
            } by {
                if i < before.clients@.len() {
                    assert(self.clients@[i] == before.clients@[i]);
                }
            }
        }
        r
    }

    /// Adds a fee of an order with identifier `pid`, written at `now`; the fee
    /// and the order it names must exist.
    pub fn insert_order_fee(&mut self, pid: u128, now: i64, req: CreateNewOrderFee) -> (r: Result<
        i32,
        ModelError,
    >)
        requires
            old(self).wf(),
        ensures
            final(self).wf(),
            !(old(self).fees.has_id(req.fee_id) && old(self).orders.has_id(req.order_id)) ==> r
                == Err::<i32, ModelError>(ModelError::ForeignKeyViolation),
            old(self).fees.has_id(req.fee_id) && old(self).orders.has_id(req.order_id)
                ==> old(self).order_fees.insert_verdict(pid, r),
            r is Err ==> *final(self) == *old(self),
            r matches Ok(id) ==> final(self).same_except(*old(self), TableName::OrderFees)
                && old(self).order_fees.inserted(
                final(self).order_fees,
                id,
                pid,
                now,
                OrderFee {
                    fee_id: req.fee_id,
                    order_id: req.order_id,
                    open: req.open,
                    value: req.value,
                    info: req.info,
                },
            ),
    {
        let ghost before = *self;
        if self.fees.index_of_id(req.fee_id).is_none() || self.orders.index_of_id(
            req.order_id,
        ).is_none() {
            return Err(ModelError::ForeignKeyViolation);
        }
        let data = OrderFee {
            fee_id: req.fee_id,
            order_id: req.order_id,
            open: req.open,
            value: req.value,
            info: req.info,
        };
        let r = self.order_fees.insert(pid, now, data);
        proof {
            assert forall|i: int| 0 <= i < self.order_fees@.len() implies {
                let f = #[trigger] self.order_fees@[i];
                &&& self.fees.has_id(f.data.fee_id)
                &&& self.orders.has_id(f.data.order_id)
            } by {
                if i < before.order_fees@.len() {
                    assert(self.order_fees@[i] == before.order_fees@[i]);
                }
            }
        }
        r
    }

    /// Adds a payment of the order with key `order_id`, with identifier `pid`,
    /// written at `now`; the order must exist.
    pub fn insert_payment(
        &mut self,
        pid: u128,
        now: i64,
        order_id: i32,
        req: CreateNewPayment,
    ) -> (r: Result<i32, ModelError>)
        requires
            old(self).wf(),
        ensures
            final(self).wf(),
            !old(self).orders.has_id(order_id) ==> r == Err::<i32, ModelError>(
                ModelError::ForeignKeyViolation,
            ),
            old(self).orders.has_id(order_id) ==> old(self).payments.insert_verdict(pid, r),
            r is Err ==> *final(self) == *old(self),
            r matches Ok(id) ==> final(self).same_except(*old(self), TableName::Payments)
                && old(self).payments.inserted(
                final(self).payments,
                id,
                pid,
                now,
                payment_of(req, order_id),
            ),
    {
        let ghost before = *self;
        if self.orders.index_of_id(order_id).is_none() {
            return Err(ModelError::ForeignKeyViolation);
        }
        let data = Payment {
            value: req.value,
            payment_date: req.payment_date,
            due_date: req.due_date,
            payment_method: req.payment_method,
            currency: req.currency,
            postponed_payment: req.postponed_payment,
            order_id,
            open: req.open,
        };
        let r = self.payments.insert(pid, now, data);
        proof {
            lemma_keys_kept(before.payments, self.payments);
            assert forall|i: int| 0 <= i < self.payments@.len() implies self.orders.has_id(
                (#[trigger] self.payments@[i]).data.order_id,
            ) by {
                if i < before.payments@.len() {
                    assert(self.payments@[i] == before.payments@[i]);
                }
            }
        }
        r
    }

    /// Adds a postponed date with identifier `pid`, written at `now`; the
    /// payment it names must exist.
    pub fn insert_postponed_payment(
        &mut self,
        pid: u128,
        now: i64,
        req: CreateNewPostponedPayment,
    ) -> (r: Result<i32, ModelError>)
        requires
            old(self).wf(),
        ensures
            final(self).wf(),
            !old(self).payments.has_id(req.payment_id) ==> r == Err::<i32, ModelError>(
                ModelError::ForeignKeyViolation,
            ),
            old(self).payments.has_id(req.payment_id)
                ==> old(self).postponed_payments.insert_verdict(pid, r),
            r is Err ==> *final(self) == *old(self),
            r matches Ok(id) ==> final(self).same_except(*old(self), TableName::PostponedPayments)
                && old(self).postponed_payments.inserted(
                final(self).postponed_payments,
                id,
                pid,
                now,
                PostponedPayment { payment_id: req.payment_id, postponed_date: req.postponed_date },
            ),
    {
        let ghost before = *self;
        if self.payments.index_of_id(req.payment_id).is_none() {
            return Err(ModelError::ForeignKeyViolation);
        }
        let data = PostponedPayment {
            payment_id: req.payment_id,
            postponed_date: req.postponed_date,
        };
        let r = self.postponed_payments.insert(pid, now, data);
        proof {
            assert forall|i: int| 0 <= i < self.postponed_payments@.len() implies self.payments.has_id(
                (#[trigger] self.postponed_payments@[i]).data.payment_id,
            ) by {
                if i < before.postponed_payments@.len() {
                    assert(self.postponed_payments@[i] == before.postponed_payments@[i]);
                }
            }
        }
        r
    }

    /// Adds an order with identifier `pid`, written at `now`; its client,
    /// process and seller must exist.
    pub fn insert_order(&mut self, pid: u128, now: i64, data: Order) -> (r: Result<i32, ModelError>)
        requires
            old(self).wf(),
        ensures
            final(self).wf(),
            !(old(self).clients.has_id(data.client_id) && old(self).processes.has_id(
                data.process_id,
            ) && old(self).sellers.has_id(data.seller_id)) ==> r == Err::<i32, ModelError>(
                ModelError::ForeignKeyViolation,
            ),
            old(self).clients.has_id(data.client_id) && old(self).processes.has_id(data.process_id)
                && old(self).sellers.has_id(data.seller_id) ==> old(self).orders.insert_verdict(
                pid,
                r,
            ),
            r is Err ==> *final(self) == *old(self),
            r matches Ok(id) ==> final(self).same_except(*old(self), TableName::Orders)
                && old(self).orders.inserted(final(self).orders, id, pid, now, data),
    {
        let ghost before = *self;
        if self.clients.index_of_id(data.client_id).is_none() || self.processes.index_of_id(
            data.process_id,
        ).is_none() || self.sellers.index_of_id(data.seller_id).is_none() {
            return Err(ModelError::ForeignKeyViolation);
        }
        let ghost d = data;
        let r = self.orders.insert(pid, now, data);
        proof {
            lemma_keys_kept(before.orders, self.orders);
            assert forall|i: int| 0 <= i < self.orders@.len() implies {
                let o = #[trigger] self.orders@[i];
                &&& self.clients.has_id(o.data.client_id)
                &&& self.processes.has_id(o.data.process_id)
                &&& self.sellers.has_id(o.data.seller_id)
            } by {
                if i < before.orders@.len() {
                    assert(self.orders@[i] == before.orders@[i]);
                }
            }
        }
        r
    }

    /// Both records that a process-fee request names exist.
    pub open spec fn process_fee_known(&self, req: CreateNewProcessFee) -> bool {
        self.processes.has_pid(req.process_pid) && self.fees.has_pid(req.fee_pid)
    }

    /// The link record that a process-fee request describes, with both keys resolved.
    pub open spec fn process_fee_of(&self, req: CreateNewProcessFee) -> ProcessFee {
        ProcessFee {
            process_id: self.processes.key_of(req.process_pid),
            fee_id: self.fees.key_of(req.fee_pid),
        }
    }

    /// Resolves the process and the fee that a request names.
    fn resolve_process_fee(&self, req: &CreateNewProcessFee) -> (r: Result<ProcessFee, ModelError>)
        requires
            self.wf(),
        ensures
            r is Ok <==> self.process_fee_known(*req),
            r is Err ==> r == Err::<ProcessFee, ModelError>(ModelError::EntityNotFound),
            r matches Ok(d) ==> d == self.process_fee_of(*req) && self.processes.has_id(
                d.process_id,
            ) && self.fees.has_id(d.fee_id),
    {
        let pi = match self.processes.index_of_pid(req.process_pid) {
            Some(i) => i,
            None => return Err(ModelError::EntityNotFound),
        };
        let fi = match self.fees.index_of_pid(req.fee_pid) {
            Some(i) => i,
            None => return Err(ModelError::EntityNotFound),
        };
        Ok(ProcessFee { process_id: self.processes.get(pi).id, fee_id: self.fees.get(fi).id })
    }

    /// Links a process and a fee named by their identifiers, under identifier
    /// `pid`, written at `now`.
    pub fn insert_process_fee(&mut self, pid: u128, now: i64, req: CreateNewProcessFee) -> (r:
        Result<i32, ModelError>)
        requires
            old(self).wf(),
        ensures
            final(self).wf(),
            !old(self).process_fee_known(req) ==> r == Err::<i32, ModelError>(
                ModelError::EntityNotFound,
            ),
            old(self).process_fee_known(req) ==> old(self).processes_fees.insert_verdict(pid, r),
            r is Err ==> *final(self) == *old(self),
            r matches Ok(id) ==> final(self).same_except(*old(self), TableName::ProcessesFees)
                && old(self).processes_fees.inserted(
                final(self).processes_fees,
                id,
                pid,
                now,
                old(self).process_fee_of(req),
            ),
    {
        let ghost before = *self;
        let data = match self.resolve_process_fee(&req) {
            Ok(d) => d,
            Err(e) => return Err(e),
        };
        let r = self.processes_fees.insert(pid, now, data);
        proof {
            assert forall|i: int| 0 <= i < self.processes_fees@.len() implies {
                let f = #[trigger] self.processes_fees@[i];
                &&& self.processes.has_id(f.data.process_id)
                &&& self.fees.has_id(f.data.fee_id)
            } by {
                if i < before.processes_fees@.len() {
                    assert(self.processes_fees@[i] == before.processes_fees@[i]);
                }
            }
        }
        r
    }

    /// Overwrites the fields of the process with identifier `pid`, at `now`.
    pub fn update_process(&mut self, pid: u128, now: i64, req: CreateNewProcess) -> (r: Result<
        i32,
        ModelError,
    >)
        requires
            old(self).wf(),
        ensures
            final(self).wf(),
            r is Err <==> !old(self).processes.has_pid(pid),
            r is Err ==> r == Err::<i32, ModelError>(ModelError::EntityNotFound) && *final(self)
                == *old(self),
            r matches Ok(id) ==> {
                &&& id == old(self).processes.key_of(pid)
                &&& final(self).same_except(*old(self), TableName::Processes)
                &&& final(self).processes.next_id == old(self).processes.next_id
                &&& final(self).processes@ == old(self).processes.rewritten(
                    old(self).processes.pos_of(pid),
                    Process { case_type: req.case_type },
                    now,
                )
            },
    {
        let ghost before = *self;
        let i = match self.processes.index_of_pid(pid) {
            Some(i) => i,
            None => return Err(ModelError::EntityNotFound),
        };
        let id = self.processes.get(i).id;
        self.processes.replace(i, Process { case_type: req.case_type }, now);
        proof {
            lemma_keys_kept(before.processes, self.processes);
        }
        Ok(id)
    }

    /// Overwrites the fields of the partner with identifier `pid`, at `now`.
    pub fn update_partner(&mut self, pid: u128, now: i64, req: CreateNewPartner) -> (r: Result<
        i32,
        ModelError,
    >)
        requires
            old(self).wf(),
        ensures
            final(self).wf(),
            r is Err <==> !old(self).partners.has_pid(pid),
            r is Err ==> r == Err::<i32, ModelError>(ModelError::EntityNotFound) && *final(self)
                == *old(self),
            r matches Ok(id) ==> {
                &&& id == old(self).partners.key_of(pid)
                &&& final(self).same_except(*old(self), TableName::Partners)
                &&& final(self).partners.next_id == old(self).partners.next_id
                &&& final(self).partners@ == old(self).partners.rewritten(
                    old(self).partners.pos_of(pid),
                    Partner {
                        name: req.name,
                        information: req.information,
                        phone: req.phone,
                        email: req.email,
                    },
                    now,
                )
            },
    {
        let ghost before = *self;
        let i = match self.partners.index_of_pid(pid) {
            Some(i) => i,
            None => return Err(ModelError::EntityNotFound),
        };
        let id = self.partners.get(i).id;
        let data = Partner {
            name: req.name,
            information: req.information,
            phone: req.phone,
            email: req.email,
        };
        self.partners.replace(i, data, now);
        proof {
            lemma_keys_kept(before.partners, self.partners);
        }
        Ok(id)
    }

    /// Overwrites the fields of the seller with identifier `pid`, at `now`.
    pub fn update_seller(&mut self, pid: u128, now: i64, req: CreateNewSeller) -> (r: Result<
        i32,
        ModelError,
    >)
        requires
            old(self).wf(),
        ensures
            final(self).wf(),
            r is Err <==> !old(self).sellers.has_pid(pid),
            r is Err ==> r == Err::<i32, ModelError>(ModelError::EntityNotFound) && *final(self)
                == *old(self),
            r matches Ok(id) ==> {
                &&& id == old(self).sellers.key_of(pid)
                &&& final(self).same_except(*old(self), TableName::Sellers)
                &&& final(self).sellers.next_id == old(self).sellers.next_id
                &&& final(self).sellers@ == old(self).sellers.rewritten(
                    old(self).sellers.pos_of(pid),
                    Seller { name: req.name },
                    now,
                )
            },
    {
        let ghost before = *self;
        let i = match self.sellers.index_of_pid(pid) {
            Some(i) => i,
            None => return Err(ModelError::EntityNotFound),
        };
        let id = self.sellers.get(i).id;
        self.sellers.replace(i, Seller { name: req.name }, now);
        proof {
            lemma_keys_kept(before.sellers, self.sellers);
        }
        Ok(id)
    }

    /// Overwrites the fields of the fee with identifier `pid`, at `now`.
    pub fn update_fee(&mut self, pid: u128, now: i64, req: CreateNewFee) -> (r: Result<
        i32,
        ModelError,
    >)
        requires
            old(self).wf(),
        ensures
            final(self).wf(),
            r is Err <==> !old(self).fees.has_pid(pid),
            r is Err ==> r == Err::<i32, ModelError>(ModelError::EntityNotFound) && *final(self)
                == *old(self),
            r matches Ok(id) ==> {
                &&& id == old(self).fees.key_of(pid)
                &&& final(self).same_except(*old(self), TableName::Fees)
                &&& final(self).fees.next_id == old(self).fees.next_id
                &&& final(self).fees@ == old(self).fees.rewritten(
                    old(self).fees.pos_of(pid),
                    Fee { fee: req.fee, fee_type: req.fee_type },
                    now,
                )
            },
    {
        let ghost before = *self;
        let i = match self.fees.index_of_pid(pid) {
            Some(i) => i,
            None => return Err(ModelError::EntityNotFound),
        };
        let id = self.fees.get(i).id;
        self.fees.replace(i, Fee { fee: req.fee, fee_type: req.fee_type }, now);
        proof {
            lemma_keys_kept(before.fees, self.fees);
        }
        Ok(id)
    }

    /// Overwrites the fields of the client with identifier `pid`, at `now`; a
    /// partner named by the request must exist.
    pub fn update_client(&mut self, pid: u128, now: i64, req: CreateNewClient) -> (r: Result<
        i32,
        ModelError,
    >)
        requires
            old(self).wf(),
        ensures
            final(self).wf(),
            r is Err <==> !old(self).clients.has_pid(pid) || !old(self).partner_known(
                req.partner_pid,
            ),
            r is Err ==> r == Err::<i32, ModelError>(ModelError::EntityNotFound) && *final(self)
                == *old(self),
            r matches Ok(id) ==> {
                &&& id == old(self).clients.key_of(pid)
                &&& final(self).same_except(*old(self), TableName::Clients)
                &&& final(self).clients.next_id == old(self).clients.next_id
                &&& final(self).clients@ == old(self).clients.rewritten(
                    old(self).clients.pos_of(pid),
                    old(self).client_of(req),
                    now,
                )
            },
    {
        let ghost before = *self;
        let i = match self.clients.index_of_pid(pid) {
            Some(i) => i,
            None => return Err(ModelError::EntityNotFound),
        };
        let partner_id = match self.resolve_partner(req.partner_pid) {
            Ok(k) => k,
            Err(e) => return Err(e),
        };
        let id = self.clients.get(i).id;
        let data = Client {
            name: req.name,
            contact: req.contact,
            phone: req.phone,
            phone2: req.phone2,
            email: req.email,
            partner_id,
        };
        self.clients.replace(i, data, now);
        proof {
            lemma_keys_kept(before.clients, self.clients);
            assert forall|k: int| 0 <= k < self.clients@.len() implies match (
            #[trigger] self.clients@[k]).data.partner_id {
                Some(p) => self.partners.has_id(p),
                None => true,
            } by {
                if k != i {
                    assert(self.clients@[k] == before.clients@[k]);
                }
            }
        }
        Ok(id)
    }

    /// Overwrites the fields of the fee of an order with identifier `pid`, at
    /// `now`; the fee and the order it names must exist.
    pub fn update_order_fee(&mut self, pid: u128, now: i64, req: CreateNewOrderFee) -> (r: Result<
        i32,
        ModelError,
    >)
        requires
            old(self).wf(),
        ensures
            final(self).wf(),
            !old(self).order_fees.has_pid(pid) ==> r == Err::<i32, ModelError>(
                ModelError::EntityNotFound,
            ),
            old(self).order_fees.has_pid(pid) && !(old(self).fees.has_id(req.fee_id) && old(
                self,
            ).orders.has_id(req.order_id)) ==> r == Err::<i32, ModelError>(
                ModelError::ForeignKeyViolation,
            ),
            r is Err ==> *final(self) == *old(self),
            old(self).order_fees.has_pid(pid) && old(self).fees.has_id(req.fee_id) && old(
                self,
            ).orders.has_id(req.order_id) ==> r is Ok,
            r matches Ok(id) ==> {
                &&& id == old(self).order_fees.key_of(pid)
                &&& final(self).same_except(*old(self), TableName::OrderFees)
                &&& final(self).order_fees.next_id == old(self).order_fees.next_id
                &&& final(self).order_fees@ == old(self).order_fees.rewritten(
                    old(self).order_fees.pos_of(pid),
                    OrderFee {
                        fee_id: req.fee_id,
                        order_id: req.order_id,
                        open: req.open,
                        value: req.value,
                        info: req.info,
                    },
                    now,
                )
            },
    {
        let ghost before = *self;
        let i = match self.order_fees.index_of_pid(pid) {
            Some(i) => i,
            None => return Err(ModelError::EntityNotFound),
        };
        if self.fees.index_of_id(req.fee_id).is_none() || self.orders.index_of_id(
            req.order_id,
        ).is_none() {
            return Err(ModelError::ForeignKeyViolation);
        }
        let id = self.order_fees.get(i).id;
        let data = OrderFee {
            fee_id: req.fee_id,
            order_id: req.order_id,
            open: req.open,
            value: req.value,
            info: req.info,
        };
        self.order_fees.replace(i, data, now);
        proof {
            assert forall|k: int| 0 <= k < self.order_fees@.len() implies {
                let f = #[trigger] self.order_fees@[k];
                &&& self.fees.has_id(f.data.fee_id)
                &&& self.orders.has_id(f.data.order_id)
            } by {
                if k != i {
                    assert(self.order_fees@[k] == before.order_fees@[k]);
                }
            }
        }
        Ok(id)
    }

    /// Overwrites the fields of the payment with identifier `pid`, at `now`;
    /// the payment stays with its order.
    pub fn update_payment(&mut self, pid: u128, now: i64, req: CreateNewPayment) -> (r: Result<
        i32,
        ModelError,
    >)
        requires
            old(self).wf(),
        ensures
            final(self).wf(),
            r is Err <==> !old(self).payments.has_pid(pid),
            r is Err ==> r == Err::<i32, ModelError>(ModelError::EntityNotFound) && *final(self)
                == *old(self),
            r matches Ok(id) ==> {
                let i = old(self).payments.pos_of(pid);
                &&& id == old(self).payments.key_of(pid)
                &&& final(self).same_except(*old(self), TableName::Payments)
                &&& final(self).payments.next_id == old(self).payments.next_id
                &&& final(self).payments@ == old(self).payments.rewritten(
                    i,
                    payment_of(req, old(self).payments@[i].data.order_id),
                    now,
                )
            },
    {
        let ghost before = *self;
        let i = match self.payments.index_of_pid(pid) {
            Some(i) => i,
            None => return Err(ModelError::EntityNotFound),
        };
        let id = self.payments.get(i).id;
        let order_id = self.payments.get(i).data.order_id;
        let data = Payment {
            value: req.value,
            payment_date: req.payment_date,
            due_date: req.due_date,
            payment_method: req.payment_method,
            currency: req.currency,
            postponed_payment: req.postponed_payment,
            order_id,
            open: req.open,
        };
        self.payments.replace(i, data, now);
        proof {
            lemma_keys_kept(before.payments, self.payments);
            assert forall|k: int| 0 <= k < self.payments@.len() implies self.orders.has_id(
                (#[trigger] self.payments@[k]).data.order_id,
            ) by {
                if k != i {
                    assert(self.payments@[k] == before.payments@[k]);
                }
            }
        }
        Ok(id)
    }

    /// Overwrites the fields of the postponed date with identifier `pid`, at
    /// `now`; the payment it names must exist.
    pub fn update_postponed_payment(
        &mut self,
        pid: u128,
        now: i64,
        req: CreateNewPostponedPayment,
    ) -> (r: Result<i32, ModelError>)
        requires
            old(self).wf(),
        ensures
            final(self).wf(),
            !old(self).postponed_payments.has_pid(pid) ==> r == Err::<i32, ModelError>(
                ModelError::EntityNotFound,
            ),
            old(self).postponed_payments.has_pid(pid) && !old(self).payments.has_id(req.payment_id)
                ==> r == Err::<i32, ModelError>(ModelError::ForeignKeyViolation),
            r is Err ==> *final(self) == *old(self),
            old(self).postponed_payments.has_pid(pid) && old(self).payments.has_id(req.payment_id)
                ==> r is Ok,
            r matches Ok(id) ==> {
                &&& id == old(self).postponed_payments.key_of(pid)
                &&& final(self).same_except(*old(self), TableName::PostponedPayments)
                &&& final(self).postponed_payments.next_id == old(self).postponed_payments.next_id
                &&& final(self).postponed_payments@ == old(self).postponed_payments.rewritten(
                    old(self).postponed_payments.pos_of(pid),
                    PostponedPayment {
                        payment_id: req.payment_id,
                        postponed_date: req.postponed_date,
                    },
                    now,
                )
            },
    {
        let ghost before = *self;
        let i = match self.postponed_payments.index_of_pid(pid) {
            Some(i) => i,
            None => return Err(ModelError::EntityNotFound),
        };
        if self.payments.index_of_id(req.payment_id).is_none() {
            return Err(ModelError::ForeignKeyViolation);
        }
        let id = self.postponed_payments.get(i).id;
        let data = PostponedPayment {
            payment_id: req.payment_id,
            postponed_date: req.postponed_date,
        };
        self.postponed_payments.replace(i, data, now);
        proof {
            assert forall|k: int| 0 <= k < self.postponed_payments@.len() implies self.payments.has_id(
                (#[trigger] self.postponed_payments@[k]).data.payment_id,
            ) by {
                if k != i {
                    assert(self.postponed_payments@[k] == before.postponed_payments@[k]);
                }
            }
        }
        Ok(id)
    }

    /// Points the process-fee link with identifier `pid` at the process and fee
    /// that the request names, at `now`.
    pub fn update_process_fee(&mut self, pid: u128, now: i64, req: CreateNewProcessFee) -> (r:
        Result<i32, ModelError>)
        requires
            old(self).wf(),
        ensures
            final(self).wf(),
            r is Err <==> !old(self).processes_fees.has_pid(pid) || !old(self).process_fee_known(
                req,
            ),
            r is Err ==> r == Err::<i32, ModelError>(ModelError::EntityNotFound) && *final(self)
                == *old(self),
            r matches Ok(id) ==> {
                &&& id == old(self).processes_fees.key_of(pid)
                &&& final(self).same_except(*old(self), TableName::ProcessesFees)
                &&& final(self).processes_fees.next_id == old(self).processes_fees.next_id
                &&& final(self).processes_fees@ == old(self).processes_fees.rewritten(
                    old(self).processes_fees.pos_of(pid),
                    old(self).process_fee_of(req),
                    now,
                )
            },
    {
        let ghost before = *self;
        let data = match self.resolve_process_fee(&req) {
            Ok(d) => d,
            Err(e) => return Err(e),
        };
        let i = match self.processes_fees.index_of_pid(pid) {
            Some(i) => i,
            None => return Err(ModelError::EntityNotFound),
        };
        let id = self.processes_fees.get(i).id;
        self.processes_fees.replace(i, data, now);
        proof {
            assert forall|k: int| 0 <= k < self.processes_fees@.len() implies {
                let f = #[trigger] self.processes_fees@[k];
                &&& self.processes.has_id(f.data.process_id)
                &&& self.fees.has_id(f.data.fee_id)
            } by {
                if k != i {
                    assert(self.processes_fees@[k] == before.processes_fees@[k]);
                }
            }
        }
        Ok(id)
    }

    /// Creates a process under a fresh random identifier, written at `now`.
    pub fn create_process(&mut self, now: i64, req: CreateNewProcess) -> (r: Result<i32, ModelError>)
        requires
            old(self).wf(),
        ensures
            final(self).wf(),
            old(self).processes.draw_verdict(r),
            r is Err ==> *final(self) == *old(self),
            r matches Ok(id) ==> {
                let e = final(self).processes@.last();
                &&& final(self).same_except(*old(self), TableName::Processes)
                &&& !old(self).processes.has_pid(e.pid)
                &&& old(self).processes.inserted(final(self).processes, id, e.pid, now, Process { case_type: req.case_type })
            },
    {
        self.insert_process(fresh_pid(), now, req)
    }

    /// Creates a partner under a fresh random identifier, written at `now`.
    pub fn create_partner(&mut self, now: i64, req: CreateNewPartner) -> (r: Result<i32, ModelError>)
        requires
            old(self).wf(),
        ensures
            final(self).wf(),
            old(self).partners.draw_verdict(r),
            r is Err ==> *final(self) == *old(self),
            r matches Ok(id) ==> {
                let e = final(self).partners@.last();
                &&& final(self).same_except(*old(self), TableName::Partners)
                &&& !old(self).partners.has_pid(e.pid)
                &&& old(self).partners.inserted(final(self).partners, id, e.pid, now, Partner { name: req.name, information: req.information, phone: req.phone, email: req.email })
            },
    {
        self.insert_partner(fresh_pid(), now, req)
    }

    /// Creates a seller under a fresh random identifier, written at `now`.
    pub fn create_seller(&mut self, now: i64, req: CreateNewSeller) -> (r: Result<i32, ModelError>)
        requires
            old(self).wf(),
        ensures
            final(self).wf(),
            old(self).sellers.draw_verdict(r),
            r is Err ==> *final(self) == *old(self),
            r matches Ok(id) ==> {
                let e = final(self).sellers@.last();
                &&& final(self).same_except(*old(self), TableName::Sellers)
                &&& !old(self).sellers.has_pid(e.pid)
                &&& old(self).sellers.inserted(final(self).sellers, id, e.pid, now, Seller { name: req.name })
            },
    {
        self.insert_seller(fresh_pid(), now, req)
    }

    /// Creates a fee under a fresh random identifier, written at `now`.
    pub fn create_fee(&mut self, now: i64, req: CreateNewFee) -> (r: Result<i32, ModelError>)
        requires
            old(self).wf(),
        ensures
            final(self).wf(),
            old(self).fees.draw_verdict(r),
            r is Err ==> *final(self) == *old(self),
            r matches Ok(id) ==> {
                let e = final(self).fees@.last();
                &&& final(self).same_except(*old(self), TableName::Fees)
                &&& !old(self).fees.has_pid(e.pid)
                &&& old(self).fees.inserted(final(self).fees, id, e.pid, now, Fee { fee: req.fee, fee_type: req.fee_type })
            },
    {
        self.insert_fee(fresh_pid(), now, req)
    }

    /// Creates a client under a fresh random identifier, written at `now`.
    pub fn create_client(&mut self, now: i64, req: CreateNewClient) -> (r: Result<i32, ModelError>)
        requires
            old(self).wf(),
        ensures
            final(self).wf(),
            !(old(self).partner_known(req.partner_pid)) ==> r == Err::<i32, ModelError>(ModelError::EntityNotFound),
            old(self).partner_known(req.partner_pid) ==> old(self).clients.draw_verdict(r),
            r == Err::<i32, ModelError>(ModelError::EntityNotFound) ==> !(old(self).partner_known(req.partner_pid)),
            r is Err ==> *final(self) == *old(self),
            r matches Ok(id) ==> {
                let e = final(self).clients@.last();
                &&& final(self).same_except(*old(self), TableName::Clients)
                &&& !old(self).clients.has_pid(e.pid)
                &&& old(self).clients.inserted(final(self).clients, id, e.pid, now, old(self).client_of(req))
            },
    {
        self.insert_client(fresh_pid(), now, req)
    }

    /// Creates a order fee under a fresh random identifier, written at `now`.
    pub fn create_order_fee(&mut self, now: i64, req: CreateNewOrderFee) -> (r: Result<i32, ModelError>)
        requires
            old(self).wf(),
        ensures
            final(self).wf(),
            !(old(self).fees.has_id(req.fee_id) && old(self).orders.has_id(req.order_id)) ==> r == Err::<i32, ModelError>(ModelError::ForeignKeyViolation),
            old(self).fees.has_id(req.fee_id) && old(self).orders.has_id(req.order_id) ==> old(self).order_fees.draw_verdict(r),
            r == Err::<i32, ModelError>(ModelError::ForeignKeyViolation) ==> !(old(self).fees.has_id(req.fee_id) && old(self).orders.has_id(req.order_id)),
            r is Err ==> *final(self) == *old(self),
            r matches Ok(id) ==> {
                let e = final(self).order_fees@.last();
                &&& final(self).same_except(*old(self), TableName::OrderFees)
                &&& !old(self).order_fees.has_pid(e.pid)
                &&& old(self).order_fees.inserted(final(self).order_fees, id, e.pid, now, OrderFee { fee_id: req.fee_id, order_id: req.order_id, open: req.open, value: req.value, info: req.info })
            },
    {
        self.insert_order_fee(fresh_pid(), now, req)
    }

    /// Creates a postponed payment under a fresh random identifier, written at `now`.
    pub fn create_postponed_payment(&mut self, now: i64, req: CreateNewPostponedPayment) -> (r: Result<i32, ModelError>)
        requires
            old(self).wf(),
        ensures
            final(self).wf(),
            !(old(self).payments.has_id(req.payment_id)) ==> r == Err::<i32, ModelError>(ModelError::ForeignKeyViolation),
            old(self).payments.has_id(req.payment_id) ==> old(self).postponed_payments.draw_verdict(r),
            r == Err::<i32, ModelError>(ModelError::ForeignKeyViolation) ==> !(old(self).payments.has_id(req.payment_id)),
            r is Err ==> *final(self) == *old(self),
            r matches Ok(id) ==> {
                let e = final(self).postponed_payments@.last();
                &&& final(self).same_except(*old(self), TableName::PostponedPayments)
                &&& !old(self).postponed_payments.has_pid(e.pid)
                &&& old(self).postponed_payments.inserted(final(self).postponed_payments, id, e.pid, now, PostponedPayment { payment_id: req.payment_id, postponed_date: req.postponed_date })
            },
    {
        self.insert_postponed_payment(fresh_pid(), now, req)
    }

    /// Creates a process fee under a fresh random identifier, written at `now`.
    pub fn create_process_fee(&mut self, now: i64, req: CreateNewProcessFee) -> (r: Result<i32, ModelError>)
        requires
            old(self).wf(),
        ensures
            final(self).wf(),
            !(old(self).process_fee_known(req)) ==> r == Err::<i32, ModelError>(ModelError::EntityNotFound),
            old(self).process_fee_known(req) ==> old(self).processes_fees.draw_verdict(r),
            r == Err::<i32, ModelError>(ModelError::EntityNotFound) ==> !(old(self).process_fee_known(req)),
            r is Err ==> *final(self) == *old(self),
            r matches Ok(id) ==> {
                let e = final(self).processes_fees@.last();
                &&& final(self).same_except(*old(self), TableName::ProcessesFees)
                &&& !old(self).processes_fees.has_pid(e.pid)
                &&& old(self).processes_fees.inserted(final(self).processes_fees, id, e.pid, now, old(self).process_fee_of(req))
            },
    {
        self.insert_process_fee(fresh_pid(), now, req)
    }

    /// Creates a payment of the order with key `order_id` under a fresh random
    /// identifier, written at `now`.
    pub fn create_payment(&mut self, now: i64, order_id: i32, req: CreateNewPayment) -> (r: Result<
        i32,
        ModelError,
    >)
        requires
            old(self).wf(),
        ensures
            final(self).wf(),
            !old(self).orders.has_id(order_id) ==> r == Err::<i32, ModelError>(
                ModelError::ForeignKeyViolation,
            ),
            old(self).orders.has_id(order_id) ==> old(self).payments.draw_verdict(r),
            r == Err::<i32, ModelError>(ModelError::ForeignKeyViolation) ==> !(old(self).orders.has_id(order_id)),
            r is Err ==> *final(self) == *old(self),
            r matches Ok(id) ==> {
                let e = final(self).payments@.last();
                &&& final(self).same_except(*old(self), TableName::Payments)
                &&& !old(self).payments.has_pid(e.pid)
                &&& old(self).payments.inserted(final(self).payments, id, e.pid, now, payment_of(req, order_id))
            },
    {
        self.insert_payment(fresh_pid(), now, order_id, req)
    }

    /// Puts back a backed-up process with its key and identifier.
    pub fn restore_process(&mut self, e: Entry<Process>) -> (r: Result<(), ModelError>)
        requires
            old(self).wf(),
        ensures
            final(self).wf(),
            old(self).processes.has_id(e.id) ==> r == Err::<(), ModelError>(ModelError::DuplicateId),
            !old(self).processes.has_id(e.id) && old(self).processes.has_pid(e.pid) ==> r == Err::<(), ModelError>(ModelError::DuplicatePid),
            !old(self).processes.has_id(e.id) && !old(self).processes.has_pid(e.pid) ==> r is Ok,
            r is Err ==> *final(self) == *old(self),
            r is Ok ==> final(self).same_except(*old(self), TableName::Processes) && final(self).processes@ == old(self).processes@.push(e),
    {
        let ghost before = *self;
        let r = self.processes.restore(e);
        proof {
            lemma_keys_kept(before.processes, self.processes);
        }
        r
    }

    /// Puts back a backed-up partner with its key and identifier.
    pub fn restore_partner(&mut self, e: Entry<Partner>) -> (r: Result<(), ModelError>)
        requires
            old(self).wf(),
        ensures
            final(self).wf(),
            old(self).partners.has_id(e.id) ==> r == Err::<(), ModelError>(ModelError::DuplicateId),
            !old(self).partners.has_id(e.id) && old(self).partners.has_pid(e.pid) ==> r == Err::<(), ModelError>(ModelError::DuplicatePid),
            !old(self).partners.has_id(e.id) && !old(self).partners.has_pid(e.pid) ==> r is Ok,
            r is Err ==> *final(self) == *old(self),
            r is Ok ==> final(self).same_except(*old(self), TableName::Partners) && final(self).partners@ == old(self).partners@.push(e),
    {
        let ghost before = *self;
        let r = self.partners.restore(e);
        proof {
            lemma_keys_kept(before.partners, self.partners);
        }
        r
    }

    /// Puts back a backed-up seller with its key and identifier.
    pub fn restore_seller(&mut self, e: Entry<Seller>) -> (r: Result<(), ModelError>)
        requires
            old(self).wf(),
        ensures
            final(self).wf(),
            old(self).sellers.has_id(e.id) ==> r == Err::<(), ModelError>(ModelError::DuplicateId),
            !old(self).sellers.has_id(e.id) && old(self).sellers.has_pid(e.pid) ==> r == Err::<(), ModelError>(ModelError::DuplicatePid),
            !old(self).sellers.has_id(e.id) && !old(self).sellers.has_pid(e.pid) ==> r is Ok,
            r is Err ==> *final(self) == *old(self),
            r is Ok ==> final(self).same_except(*old(self), TableName::Sellers) && final(self).sellers@ == old(self).sellers@.push(e),
    {
        let ghost before = *self;
        let r = self.sellers.restore(e);
        proof {
            lemma_keys_kept(before.sellers, self.sellers);
        }
        r
    }

    /// Puts back a backed-up fee with its key and identifier.
    pub fn restore_fee(&mut self, e: Entry<Fee>) -> (r: Result<(), ModelError>)
        requires
            old(self).wf(),
        ensures
            final(self).wf(),
            old(self).fees.has_id(e.id) ==> r == Err::<(), ModelError>(ModelError::DuplicateId),
            !old(self).fees.has_id(e.id) && old(self).fees.has_pid(e.pid) ==> r == Err::<(), ModelError>(ModelError::DuplicatePid),
            !old(self).fees.has_id(e.id) && !old(self).fees.has_pid(e.pid) ==> r is Ok,
            r is Err ==> *final(self) == *old(self),
            r is Ok ==> final(self).same_except(*old(self), TableName::Fees) && final(self).fees@ == old(self).fees@.push(e),
    {
        let ghost before = *self;
        let r = self.fees.restore(e);
        proof {
            lemma_keys_kept(before.fees, self.fees);
        }
        r
    }

    /// Puts back a backed-up client with its key and identifier.
    pub fn restore_client(&mut self, e: Entry<Client>) -> (r: Result<(), ModelError>)
        requires
            old(self).wf(),
        ensures
            final(self).wf(),
            !(match e.data.partner_id { Some(p) => old(self).partners.has_id(p), None => true }) ==> r == Err::<(), ModelError>(ModelError::ForeignKeyViolation),
            (match e.data.partner_id { Some(p) => old(self).partners.has_id(p), None => true }) && old(self).clients.has_id(e.id) ==> r == Err::<(), ModelError>(ModelError::DuplicateId),
            (match e.data.partner_id { Some(p) => old(self).partners.has_id(p), None => true }) && !old(self).clients.has_id(e.id) && old(self).clients.has_pid(e.pid) ==> r == Err::<(), ModelError>(ModelError::DuplicatePid),
            (match e.data.partner_id { Some(p) => old(self).partners.has_id(p), None => true }) && !old(self).clients.has_id(e.id) && !old(self).clients.has_pid(e.pid) ==> r is Ok,
            r is Err ==> *final(self) == *old(self),
            r is Ok ==> final(self).same_except(*old(self), TableName::Clients) && final(self).clients@ == old(self).clients@.push(e),
    {
        let ghost before = *self;
        if !(match e.data.partner_id { Some(p) => self.partners.index_of_id(p).is_some(), None => true }) {
            return Err(ModelError::ForeignKeyViolation);
        }
        let r = self.clients.restore(e);
        proof {
            lemma_keys_kept(before.clients, self.clients);
            assert forall|i: int| 0 <= i < self.clients@.len() implies match (
            #[trigger] self.clients@[i]).data.partner_id {
                Some(p) => self.partners.has_id(p),
                None => true,
            } by {
                if i < before.clients@.len() {
                    assert(self.clients@[i] == before.clients@[i]);
                }
            }
        }
        r
    }

    /// Puts back a backed-up order with its key and identifier.
    pub fn restore_order(&mut self, e: Entry<Order>) -> (r: Result<(), ModelError>)
        requires
            old(self).wf(),
        ensures
            final(self).wf(),
            !(old(self).clients.has_id(e.data.client_id) && old(self).processes.has_id(e.data.process_id) && old(self).sellers.has_id(e.data.seller_id)) ==> r == Err::<(), ModelError>(ModelError::ForeignKeyViolation),
            (old(self).clients.has_id(e.data.client_id) && old(self).processes.has_id(e.data.process_id) && old(self).sellers.has_id(e.data.seller_id)) && old(self).orders.has_id(e.id) ==> r == Err::<(), ModelError>(ModelError::DuplicateId),
            (old(self).clients.has_id(e.data.client_id) && old(self).processes.has_id(e.data.process_id) && old(self).sellers.has_id(e.data.seller_id)) && !old(self).orders.has_id(e.id) && old(self).orders.has_pid(e.pid) ==> r == Err::<(), ModelError>(ModelError::DuplicatePid),
            (old(self).clients.has_id(e.data.client_id) && old(self).processes.has_id(e.data.process_id) && old(self).sellers.has_id(e.data.seller_id)) && !old(self).orders.has_id(e.id) && !old(self).orders.has_pid(e.pid) ==> r is Ok,
            r is Err ==> *final(self) == *old(self),
            r is Ok ==> final(self).same_except(*old(self), TableName::Orders) && final(self).orders@ == old(self).orders@.push(e),
    {
        let ghost before = *self;
        if !(self.clients.index_of_id(e.data.client_id).is_some() && self.processes.index_of_id(e.data.process_id).is_some() && self.sellers.index_of_id(e.data.seller_id).is_some()) {
            return Err(ModelError::ForeignKeyViolation);
        }
        let r = self.orders.restore(e);
        proof {
            lemma_keys_kept(before.orders, self.orders);
            assert forall|i: int| 0 <= i < self.orders@.len() implies {
                let o = #[trigger] self.orders@[i];
                &&& self.clients.has_id(o.data.client_id)
                &&& self.processes.has_id(o.data.process_id)
                &&& self.sellers.has_id(o.data.seller_id)
            } by {
                if i < before.orders@.len() {
                    assert(self.orders@[i] == before.orders@[i]);
                }
            }
        }
        r
    }

    /// Puts back a backed-up order fee with its key and identifier.
    pub fn restore_order_fee(&mut self, e: Entry<OrderFee>) -> (r: Result<(), ModelError>)
        requires
            old(self).wf(),
        ensures
            final(self).wf(),
            !(old(self).fees.has_id(e.data.fee_id) && old(self).orders.has_id(e.data.order_id)) ==> r == Err::<(), ModelError>(ModelError::ForeignKeyViolation),
            (old(self).fees.has_id(e.data.fee_id) && old(self).orders.has_id(e.data.order_id)) && old(self).order_fees.has_id(e.id) ==> r == Err::<(), ModelError>(ModelError::DuplicateId),
            (old(self).fees.has_id(e.data.fee_id) && old(self).orders.has_id(e.data.order_id)) && !old(self).order_fees.has_id(e.id) && old(self).order_fees.has_pid(e.pid) ==> r == Err::<(), ModelError>(ModelError::DuplicatePid),
            (old(self).fees.has_id(e.data.fee_id) && old(self).orders.has_id(e.data.order_id)) && !old(self).order_fees.has_id(e.id) && !old(self).order_fees.has_pid(e.pid) ==> r is Ok,
            r is Err ==> *final(self) == *old(self),
            r is Ok ==> final(self).same_except(*old(self), TableName::OrderFees) && final(self).order_fees@ == old(self).order_fees@.push(e),
    {
        let ghost before = *self;
        if !(self.fees.index_of_id(e.data.fee_id).is_some() && self.orders.index_of_id(e.data.order_id).is_some()) {
            return Err(ModelError::ForeignKeyViolation);
        }
        let r = self.order_fees.restore(e);
        proof {
            lemma_keys_kept(before.order_fees, self.order_fees);
            assert forall|i: int| 0 <= i < self.order_fees@.len() implies {
                let f = #[trigger] self.order_fees@[i];
                &&& self.fees.has_id(f.data.fee_id)
                &&& self.orders.has_id(f.data.order_id)
            } by {
                if i < before.order_fees@.len() {
                    assert(self.order_fees@[i] == before.order_fees@[i]);
                }
            }
        }
        r
    }

    /// Puts back a backed-up payment with its key and identifier.
    pub fn restore_payment(&mut self, e: Entry<Payment>) -> (r: Result<(), ModelError>)
        requires
            old(self).wf(),
        ensures
            final(self).wf(),
            !(old(self).orders.has_id(e.data.order_id)) ==> r == Err::<(), ModelError>(ModelError::ForeignKeyViolation),
            (old(self).orders.has_id(e.data.order_id)) && old(self).payments.has_id(e.id) ==> r == Err::<(), ModelError>(ModelError::DuplicateId),
            (old(self).orders.has_id(e.data.order_id)) && !old(self).payments.has_id(e.id) && old(self).payments.has_pid(e.pid) ==> r == Err::<(), ModelError>(ModelError::DuplicatePid),
            (old(self).orders.has_id(e.data.order_id)) && !old(self).payments.has_id(e.id) && !old(self).payments.has_pid(e.pid) ==> r is Ok,
            r is Err ==> *final(self) == *old(self),
            r is Ok ==> final(self).same_except(*old(self), TableName::Payments) && final(self).payments@ == old(self).payments@.push(e),
    {
        let ghost before = *self;
        if !(self.orders.index_of_id(e.data.order_id).is_some()) {
            return Err(ModelError::ForeignKeyViolation);
        }
        let r = self.payments.restore(e);
        proof {
            lemma_keys_kept(before.payments, self.payments);
            assert forall|i: int| 0 <= i < self.payments@.len() implies self.orders.has_id(
                (#[trigger] self.payments@[i]).data.order_id,
            ) by {
                if i < before.payments@.len() {
                    assert(self.payments@[i] == before.payments@[i]);
                }
            }
        }
        r
    }

    /// Puts back a backed-up postponed payment with its key and identifier.
    pub fn restore_postponed_payment(&mut self, e: Entry<PostponedPayment>) -> (r: Result<(), ModelError>)
        requires
            old(self).wf(),
        ensures
            final(self).wf(),
            !(old(self).payments.has_id(e.data.payment_id)) ==> r == Err::<(), ModelError>(ModelError::ForeignKeyViolation),
            (old(self).payments.has_id(e.data.payment_id)) && old(self).postponed_payments.has_id(e.id) ==> r == Err::<(), ModelError>(ModelError::DuplicateId),
            (old(self).payments.has_id(e.data.payment_id)) && !old(self).postponed_payments.has_id(e.id) && old(self).postponed_payments.has_pid(e.pid) ==> r == Err::<(), ModelError>(ModelError::DuplicatePid),
            (old(self).payments.has_id(e.data.payment_id)) && !old(self).postponed_payments.has_id(e.id) && !old(self).postponed_payments.has_pid(e.pid) ==> r is Ok,
            r is Err ==> *final(self) == *old(self),
            r is Ok ==> final(self).same_except(*old(self), TableName::PostponedPayments) && final(self).postponed_payments@ == old(self).postponed_payments@.push(e),
    {
        let ghost before = *self;
        if !(self.payments.index_of_id(e.data.payment_id).is_some()) {
            return Err(ModelError::ForeignKeyViolation);
        }
        let r = self.postponed_payments.restore(e);
        proof {
            lemma_keys_kept(before.postponed_payments, self.postponed_payments);
            assert forall|i: int| 0 <= i < self.postponed_payments@.len() implies self.payments.has_id(
                (#[trigger] self.postponed_payments@[i]).data.payment_id,
            ) by {
                if i < before.postponed_payments@.len() {
                    assert(self.postponed_payments@[i] == before.postponed_payments@[i]);
                }
            }
        }
        r
    }

    /// Puts back a backed-up process fee with its key and identifier.
    pub fn restore_process_fee(&mut self, e: Entry<ProcessFee>) -> (r: Result<(), ModelError>)
        requires
            old(self).wf(),
        ensures
            final(self).wf(),
            !(old(self).processes.has_id(e.data.process_id) && old(self).fees.has_id(e.data.fee_id)) ==> r == Err::<(), ModelError>(ModelError::ForeignKeyViolation),
            (old(self).processes.has_id(e.data.process_id) && old(self).fees.has_id(e.data.fee_id)) && old(self).processes_fees.has_id(e.id) ==> r == Err::<(), ModelError>(ModelError::DuplicateId),
            (old(self).processes.has_id(e.data.process_id) && old(self).fees.has_id(e.data.fee_id)) && !old(self).processes_fees.has_id(e.id) && old(self).processes_fees.has_pid(e.pid) ==> r == Err::<(), ModelError>(ModelError::DuplicatePid),
            (old(self).processes.has_id(e.data.process_id) && old(self).fees.has_id(e.data.fee_id)) && !old(self).processes_fees.has_id(e.id) && !old(self).processes_fees.has_pid(e.pid) ==> r is Ok,
            r is Err ==> *final(self) == *old(self),
            r is Ok ==> final(self).same_except(*old(self), TableName::ProcessesFees) && final(self).processes_fees@ == old(self).processes_fees@.push(e),
    {
        let ghost before = *self;
        if !(self.processes.index_of_id(e.data.process_id).is_some() && self.fees.index_of_id(e.data.fee_id).is_some()) {
            return Err(ModelError::ForeignKeyViolation);
        }
        let r = self.processes_fees.restore(e);
        proof {
            lemma_keys_kept(before.processes_fees, self.processes_fees);
            assert forall|i: int| 0 <= i < self.processes_fees@.len() implies {
                let f = #[trigger] self.processes_fees@[i];
                &&& self.processes.has_id(f.data.process_id)
                &&& self.fees.has_id(f.data.fee_id)
            } by {
                if i < before.processes_fees@.len() {
                    assert(self.processes_fees@[i] == before.processes_fees@[i]);
                }
            }
        }
        r
    }
}

/// `b` holds the elements of `a` at their places, perhaps followed by more.
pub open spec fn grows<A>(a: Seq<A>, b: Seq<A>) -> bool {
    &&& a.len() <= b.len()
    &&& forall|i: int| 0 <= i < a.len() ==> #[trigger] b[i] == a[i]
}

/// The payment record that a request describes, under the order with key `order_id`.
pub open spec fn payment_of(req: CreateNewPayment, order_id: i32) -> Payment {
    Payment {
        value: req.value,
        payment_date: req.payment_date,
        due_date: req.due_date,
        payment_method: req.payment_method,
        currency: req.currency,
        postponed_payment: req.postponed_payment,
        order_id,
        open: req.open,
    }
}

} // verus!
