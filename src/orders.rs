use vstd::prelude::*;

use crate::entities::{Client, Fee, Order, OrderFee, Partner, Payment, PostponedPayment, Process};
use crate::store::Store;
use crate::table::{lemma_filter_push, Entry, Table};
use crate::values::{copy_text, parse_pid, uuid_parse, Amount, Date, ModelError};
use crate::views::{lemma_map_push, partner_view, seller_view, PartnerView, SellerView};

verus! {

/// A fee charged on an order, as an order's view lists it.
pub struct FeeInOrdersReturn {
    pub fee_pid: u128,
    pub order_fee_pid: Option<u128>,
    pub fee: String,
    pub fee_type: Option<String>,
    pub value: Amount,
    pub info: Option<String>,
    pub open: bool,
}

/// A payment of an order, as an order's view lists it or as an edit submits it.
pub struct OrderPayments {
    pub pid: Option<u128>,
    pub value: Amount,
    pub payment_date: Option<Date>,
    pub due_date: Date,
    pub payment_method: Option<String>,
    pub currency: Option<String>,
    pub postponed_payment: Option<bool>,
    pub open: bool,
    pub postponed_dates: Option<Vec<Date>>,
}

/// The client of an order, with its partner.
pub struct ClientOrderReturn {
    pub pid: u128,
    pub name: String,
    pub contact: String,
    pub phone: Option<String>,
    pub phone2: Option<String>,
    pub email: Option<String>,
    pub partner: Option<PartnerView>,
}

/// The process of an order.
pub struct ClientProcessReturn {
    pub pid: u128,
    pub case_type: String,
}

/// An order with everything it refers to.
pub struct GetOrderReturn {
    pub pid: u128,
    pub open: bool,
    pub fee: Amount,
    pub fees: Vec<FeeInOrdersReturn>,
    pub payout: Option<Amount>,
    pub partner_fee: Option<Amount>,
    pub seller: SellerView,
    pub client: ClientOrderReturn,
    pub process: ClientProcessReturn,
    pub payments: Vec<OrderPayments>,
}

pub open spec fn client_order_view(c: Entry<Client>, partners: Table<Partner>) -> ClientOrderReturn {
    ClientOrderReturn {
        pid: c.pid,
        name: c.data.name,
        contact: c.data.contact,
        phone: Some(c.data.phone),
        phone2: c.data.phone2,
        email: Some(c.data.email),
        partner: match c.data.partner_id {
            Some(p) => Some(partner_view(partners.row_of_key(p))),
            None => None,
        },
    }
}

pub open spec fn process_return(e: Entry<Process>) -> ClientProcessReturn {
    ClientProcessReturn { pid: e.pid, case_type: e.data.case_type }
}

pub open spec fn fee_in_order(fees: Table<Fee>, of: Entry<OrderFee>) -> FeeInOrdersReturn {
    let fee = fees.row_of_key(of.data.fee_id);
    FeeInOrdersReturn {
        fee_pid: fee.pid,
        order_fee_pid: Some(of.pid),
        fee: fee.data.fee,
        fee_type: fee.data.fee_type,
        value: of.data.value,
        info: of.data.info,
        open: of.data.open,
    }
}

/// `v` shows payment `p` with its postponed dates `dates`.
pub open spec fn payment_view_ok(v: OrderPayments, p: Entry<Payment>, dates: Seq<Date>) -> bool {
    &&& v.pid == Some(p.pid)
    &&& v.value == p.data.value
    &&& v.payment_date == p.data.payment_date
    &&& v.due_date == p.data.due_date
    &&& v.payment_method == p.data.payment_method
    &&& v.currency == p.data.currency
    &&& v.postponed_payment == p.data.postponed_payment
    &&& v.open == p.data.open
    &&& v.postponed_dates matches Some(d) && d@ == dates
}

impl Store {
    /// The fees charged on the order with key `key`, in table order.
    pub open spec fn fees_of(&self, key: i32) -> Seq<Entry<OrderFee>> {
        self.order_fees@.filter(|of: Entry<OrderFee>| of.data.order_id == key)
    }

    /// The payments of the order with key `key`, in table order.
    pub open spec fn payments_of(&self, key: i32) -> Seq<Entry<Payment>> {
        self.payments@.filter(|p: Entry<Payment>| p.data.order_id == key)
    }

    /// The dates to which the payment with key `key` was put off, in table order.
    pub open spec fn dates_of(&self, key: i32) -> Seq<Date> {
        self.postponed_payments@.filter(|q: Entry<PostponedPayment>| q.data.payment_id == key).map_values(
            |q: Entry<PostponedPayment>| q.data.postponed_date,
        )
    }

    /// `v` shows order `o` with its client, partner, seller, process, fees,
    /// payments and postponed dates, as the store holds them.
    pub open spec fn order_view_ok(&self, v: GetOrderReturn, o: Entry<Order>) -> bool {
        &&& v.pid == o.pid
        &&& v.open == o.data.open
        &&& v.fee == o.data.fee
        &&& v.payout == Some(o.data.payout)
        &&& v.partner_fee == o.data.partner_fee
        &&& v.seller == seller_view(self.sellers.row_of_key(o.data.seller_id))
        &&& v.client == client_order_view(self.clients.row_of_key(o.data.client_id), self.partners)
        &&& v.process == process_return(self.processes.row_of_key(o.data.process_id))
        &&& v.fees@ == self.fees_of(o.id).map_values(|of: Entry<OrderFee>| fee_in_order(self.fees, of))
        &&& v.payments@.len() == self.payments_of(o.id).len()
        &&& forall|j: int|
            0 <= j < v.payments@.len() ==> payment_view_ok(
                #[trigger] v.payments@[j],
                self.payments_of(o.id)[j],
                self.dates_of(self.payments_of(o.id)[j].id),
            )
    }

    /// The dates to which the payment with key `key` was put off.
    pub fn postponed_dates_of(&self, key: i32) -> (r: Vec<Date>)
        ensures
            r@ == self.dates_of(key),
    {
        let ghost pred = |q: Entry<PostponedPayment>| q.data.payment_id == key;
        let ghost f = |q: Entry<PostponedPayment>| q.data.postponed_date;
        let t = &self.postponed_payments;
        let mut out: Vec<Date> = Vec::new();
        let mut i: usize = 0;
        while i < t.len()
            invariant
                i <= t@.len(),
                t == &self.postponed_payments,
                pred == (|q: Entry<PostponedPayment>| q.data.payment_id == key),
                f == (|q: Entry<PostponedPayment>| q.data.postponed_date),
                out@ == t@.take(i as int).filter(pred).map_values(f),
            decreases t@.len() - i,
        {
            let q = t.get(i);
            proof {
                assert(t@.take(i + 1) =~= t@.take(i as int).push(t@[i as int]));
                lemma_filter_push(t@.take(i as int), t@[i as int], pred);
            }
            if q.data.payment_id == key {
                out.push(q.data.postponed_date);
                proof {
                    lemma_map_push(t@.take(i as int).filter(pred), t@[i as int], f);
                }
            }
            i = i + 1;
        }
        assert(t@.take(t@.len() as int) =~= t@);
        out
    }

    /// The fees charged on the order with key `key`, as its view lists them.
    fn order_fee_views(&self, key: i32) -> (r: Vec<FeeInOrdersReturn>)
        requires
            self.wf(),
        ensures
            r@ == self.fees_of(key).map_values(|of: Entry<OrderFee>| fee_in_order(self.fees, of)),
    {
        let ghost pred = |of: Entry<OrderFee>| of.data.order_id == key;
        let ghost f = |of: Entry<OrderFee>| fee_in_order(self.fees, of);
        let t = &self.order_fees;
        let mut out: Vec<FeeInOrdersReturn> = Vec::new();
        let mut i: usize = 0;
        while i < t.len()
            invariant
                self.wf(),
                i <= t@.len(),
                t == &self.order_fees,
                pred == (|of: Entry<OrderFee>| of.data.order_id == key),
                f == (|of: Entry<OrderFee>| fee_in_order(self.fees, of)),
                out@ == t@.take(i as int).filter(pred).map_values(f),
            decreases t@.len() - i,
        {
            let of = t.get(i);
            proof {
                assert(t@.take(i + 1) =~= t@.take(i as int).push(t@[i as int]));
                lemma_filter_push(t@.take(i as int), t@[i as int], pred);
            }
            if of.data.order_id == key {
                let fee = self.fees.get_by_id(of.data.fee_id);
                out.push(
                    FeeInOrdersReturn {
                        fee_pid: fee.pid,
                        order_fee_pid: Some(of.pid),
                        fee: fee.data.fee.clone(),
                        fee_type: copy_text(&fee.data.fee_type),
                        value: of.data.value,
                        info: copy_text(&of.data.info),
                        open: of.data.open,
                    },
                );
                proof {
                    lemma_map_push(t@.take(i as int).filter(pred), t@[i as int], f);
                }
            }
            i = i + 1;
        }
        assert(t@.take(t@.len() as int) =~= t@);
        out
    }

    /// The payments of the order with key `key`, as its view lists them.
    fn payment_views(&self, key: i32) -> (r: Vec<OrderPayments>)
        ensures
            r@.len() == self.payments_of(key).len(),
            forall|j: int|
                0 <= j < r@.len() ==> payment_view_ok(
                    #[trigger] r@[j],
                    self.payments_of(key)[j],
                    self.dates_of(self.payments_of(key)[j].id),
                ),
    {
        let ghost pred = |p: Entry<Payment>| p.data.order_id == key;
        let t = &self.payments;
        let mut out: Vec<OrderPayments> = Vec::new();
        let mut i: usize = 0;
        while i < t.len()
            invariant
                i <= t@.len(),
                t == &self.payments,
                pred == (|p: Entry<Payment>| p.data.order_id == key),
                out@.len() == t@.take(i as int).filter(pred).len(),
                forall|j: int|
                    0 <= j < out@.len() ==> payment_view_ok(
                        #[trigger] out@[j],
                        t@.take(i as int).filter(pred)[j],
                        self.dates_of(t@.take(i as int).filter(pred)[j].id),
                    ),
            decreases t@.len() - i,
        {
            let p = t.get(i);
            proof {
                assert(t@.take(i + 1) =~= t@.take(i as int).push(t@[i as int]));
                lemma_filter_push(t@.take(i as int), t@[i as int], pred);
            }
            if p.data.order_id == key {
                let dates = self.postponed_dates_of(p.id);
                out.push(
                    OrderPayments {
                        pid: Some(p.pid),
                        value: p.data.value,
                        payment_date: p.data.payment_date,
                        due_date: p.data.due_date,
                        payment_method: copy_text(&p.data.payment_method),
                        currency: copy_text(&p.data.currency),
                        postponed_payment: p.data.postponed_payment,
                        open: p.data.open,
                        postponed_dates: Some(dates),
                    },
                );
            }
            i = i + 1;
        }
        assert(t@.take(t@.len() as int) =~= t@);
        out
    }

    /// The view of the order at position `i`.
    pub fn order_view(&self, i: usize) -> (r: GetOrderReturn)
        requires
            self.wf(),
            i < self.orders@.len(),
        ensures
            self.order_view_ok(r, self.orders@[i as int]),
    {
        let o = self.orders.get(i);
        let client = self.clients.get_by_id(o.data.client_id);
        let partner = match client.data.partner_id {
            Some(p) => Some(PartnerView::from(self.partners.get_by_id(p))),
            None => None,
        };
        let process = self.processes.get_by_id(o.data.process_id);
        GetOrderReturn {
            pid: o.pid,
            open: o.data.open,
            fee: o.data.fee,
            fees: self.order_fee_views(o.id),
            payout: Some(o.data.payout),
            partner_fee: o.data.partner_fee,
            seller: SellerView::from(self.sellers.get_by_id(o.data.seller_id)),
            client: ClientOrderReturn {
                pid: client.pid,
                name: client.data.name.clone(),
                contact: client.data.contact.clone(),
                phone: Some(client.data.phone.clone()),
                phone2: copy_text(&client.data.phone2),
                email: Some(client.data.email.clone()),
                partner,
            },
            process: ClientProcessReturn { pid: process.pid, case_type: process.data.case_type.clone() },
            payments: self.payment_views(o.id),
        }
    }

    /// The view of the order with identifier `pid`.
    pub fn find_order(&self, pid: u128) -> (r: Result<GetOrderReturn, ModelError>)
        requires
            self.wf(),
        ensures
            r is Err <==> !self.orders.has_pid(pid),
            r is Err ==> r == Err::<GetOrderReturn, ModelError>(ModelError::EntityNotFound),
            r matches Ok(v) ==> self.order_view_ok(v, self.orders@[self.orders.pos_of(pid)]),
    {
        match self.orders.index_of_pid(pid) {
            Some(i) => Ok(self.order_view(i)),
            None => Err(ModelError::EntityNotFound),
        }
    }

    /// The view of the order whose identifier is written in `pid`.
    pub fn find_order_by_pid(&self, pid: &str) -> (r: Result<GetOrderReturn, ModelError>)
        requires
            self.wf(),
        ensures
            match uuid_parse(pid@) {
                Some(u) => {
                    &&& r is Err <==> !self.orders.has_pid(u)
                    &&& r matches Ok(v) ==> self.order_view_ok(
                        v,
                        self.orders@[self.orders.pos_of(u)],
                    )
                },
                None => true,
            },
            r is Err ==> r == Err::<GetOrderReturn, ModelError>(ModelError::EntityNotFound),
            uuid_parse(pid@) is None ==> r is Err,
    {
        match parse_pid(pid) {
            Some(u) => self.find_order(u),
            None => Err(ModelError::EntityNotFound),
        }
    }

    /// The views of all orders, in table order.
    pub fn find_all_orders(&self) -> (r: Vec<GetOrderReturn>)
        requires
            self.wf(),
        ensures
            r@.len() == self.orders@.len(),
            forall|i: int| 0 <= i < r@.len() ==> self.order_view_ok(#[trigger] r@[i], self.orders@[i]),
    {
        let mut out: Vec<GetOrderReturn> = Vec::new();
        let mut i: usize = 0;
        while i < self.orders.len()
            invariant
                self.wf(),
                i <= self.orders@.len(),
                out@.len() == i,
                forall|j: int| 0 <= j < i ==> self.order_view_ok(#[trigger] out@[j], self.orders@[j]),
            decreases self.orders@.len() - i,
        {
            out.push(self.order_view(i));
            i = i + 1;
        }
        out
    }
}

/// The process of one of a client's orders.
pub struct OrderProcessView {
    pub pid: u128,
    pub case_type: String,
}

/// One of a client's orders.
pub struct ClientOrdersView {
    pub pid: u128,
    pub process: OrderProcessView,
    pub open: bool,
    pub fee: Amount,
    pub seller: SellerView,
    pub partner_fee: Option<Amount>,
}

/// A client with its partner and its orders.
pub struct ClientViewResponse {
    pub pid: u128,
    pub name: String,
    pub contact: String,
    pub phone: Option<String>,
    pub phone2: Option<String>,
    pub email: Option<String>,
    pub partner: Option<PartnerView>,
    pub orders: Vec<ClientOrdersView>,
}

impl Store {
    /// How a client's view lists order `o`.
    pub open spec fn client_order_entry(&self, o: Entry<Order>) -> ClientOrdersView {
        let process = self.processes.row_of_key(o.data.process_id);
        ClientOrdersView {
            pid: o.pid,
            process: OrderProcessView { pid: process.pid, case_type: process.data.case_type },
            open: o.data.open,
            fee: o.data.fee,
            seller: seller_view(self.sellers.row_of_key(o.data.seller_id)),
            partner_fee: o.data.partner_fee,
        }
    }

    /// The orders that a view of the client with key `key` lists, in table order.
    pub open spec fn client_orders(&self, key: i32) -> Seq<ClientOrdersView> {
        self.orders@.filter(|o: Entry<Order>| o.data.client_id == key).map_values(
            |o: Entry<Order>| self.client_order_entry(o),
        )
    }

    /// `v` shows client `c` with its partner and its orders.
    pub open spec fn client_view_ok(&self, v: ClientViewResponse, c: Entry<Client>) -> bool {
        let head = client_order_view(c, self.partners);
        &&& v.pid == head.pid
        &&& v.name == head.name
        &&& v.contact == head.contact
        &&& v.phone == head.phone
        &&& v.phone2 == head.phone2
        &&& v.email == head.email
        &&& v.partner == head.partner
        &&& v.orders@ == self.client_orders(c.id)
    }
}

impl ClientViewResponse {
    /// The view of client `c` of the store, with its partner and orders.
    pub fn from_model(store: &Store, c: &Entry<Client>) -> (r: ClientViewResponse)
        requires
            store.wf(),
            store.clients@.contains(*c),
        ensures
            store.client_view_ok(r, *c),
    {
        let ghost pred = |o: Entry<Order>| o.data.client_id == c.id;
        let ghost f = |o: Entry<Order>| store.client_order_entry(o);
        let t = &store.orders;
        let mut out: Vec<ClientOrdersView> = Vec::new();
        let mut i: usize = 0;
        while i < t.len()
            invariant
                store.wf(),
                i <= t@.len(),
                t == &store.orders,
                pred == (|o: Entry<Order>| o.data.client_id == c.id),
                f == (|o: Entry<Order>| store.client_order_entry(o)),
                out@ == t@.take(i as int).filter(pred).map_values(f),
            decreases t@.len() - i,
        {
            let o = t.get(i);
            proof {
                assert(t@.take(i + 1) =~= t@.take(i as int).push(t@[i as int]));
                lemma_filter_push(t@.take(i as int), t@[i as int], pred);
            }
            if o.data.client_id == c.id {
                let process = store.processes.get_by_id(o.data.process_id);
                out.push(
                    ClientOrdersView {
                        pid: o.pid,
                        process: OrderProcessView {
                            pid: process.pid,
                            case_type: process.data.case_type.clone(),
                        },
                        open: o.data.open,
                        fee: o.data.fee,
                        seller: SellerView::from(store.sellers.get_by_id(o.data.seller_id)),
                        partner_fee: o.data.partner_fee,
                    },
                );
                proof {
                    lemma_map_push(t@.take(i as int).filter(pred), t@[i as int], f);
                }
            }
            i = i + 1;
        }
        assert(t@.take(t@.len() as int) =~= t@);
        proof {
            let k = choose|k: int| 0 <= k < store.clients@.len() && store.clients@[k] == *c;
            assert(store.clients@[k] == *c);
        }
        let partner = match c.data.partner_id {
            Some(p) => Some(PartnerView::from(store.partners.get_by_id(p))),
            None => None,
        };
        ClientViewResponse {
            pid: c.pid,
            name: c.data.name.clone(),
            contact: c.data.contact.clone(),
            phone: Some(c.data.phone.clone()),
            phone2: copy_text(&c.data.phone2),
            email: Some(c.data.email.clone()),
            partner,
            orders: out,
        }
    }
}

impl GetOrderReturn {
    /// The same view, field for field.
    pub fn from(order: GetOrderReturn) -> (r: GetOrderReturn)
        ensures
            r == order,
    {
        GetOrderReturn {
            pid: order.pid,
            open: order.open,
            fee: order.fee,
            fees: order.fees,
            payout: order.payout,
            partner_fee: order.partner_fee,
            seller: order.seller,
            client: order.client,
            process: order.process,
            payments: order.payments,
        }
    }
}

} // verus!
