use vstd::prelude::*;

use crate::entities::{Order, OrderFee, Payment, PostponedPayment};
use crate::orders::{GetOrderReturn, OrderPayments};
use crate::requests::{CreateNewOrderFee, CreateNewPayment, CreateNewPostponedPayment};
use crate::store::{Store, TableName};
use crate::table::{lemma_filter_member, lemma_filter_push, lemma_keys_kept, Entry, KEY_LIMIT};
use crate::values::{copy_text, fresh_pid, only_draw_errors, parse_pid, uuid_parse, Amount, Date, ModelError};
use crate::views::lemma_map_push;

verus! {

/// A fee to charge on an order; with `order_fee_pid` set, an edit of the fee
/// already charged under that identifier.
pub struct JsonOrderFeesToCreate {
    pub fee_pid: u128,
    pub order_fee_pid: Option<u128>,
    pub open: bool,
    pub value: Amount,
    pub info: Option<String>,
}

/// A payment to create with a new order, with the dates it was put off to.
pub struct OrderPaymentsRequest {
    pub value: Amount,
    pub payment_date: Option<Date>,
    pub due_date: Date,
    pub payment_method: Option<String>,
    pub currency: Option<String>,
    pub postponed_payment: Option<bool>,
    pub open: bool,
    pub postponed_dates: Option<Vec<Date>>,
}

/// A new order: its client, process and seller by identifier, its amounts,
/// fees and payments.
pub struct JsonOrderToCreate {
    pub process_pid: u128,
    pub client_pid: u128,
    pub open: bool,
    pub fee: Amount,
    pub fees: Vec<JsonOrderFeesToCreate>,
    pub payout: Option<Amount>,
    pub partner_fee: Option<Amount>,
    pub seller_pid: u128,
    pub payments: Vec<OrderPaymentsRequest>,
}

/// An edit of an order: its client, process and seller by identifier, its
/// amounts, the fees to charge or edit, and its payments.
pub struct CreateNewOrder {
    pub client_pid: u128,
    pub seller_pid: u128,
    pub process_pid: u128,
    pub open: bool,
    pub fee: Amount,
    pub fees: Vec<JsonOrderFeesToCreate>,
    pub payout: Option<Amount>,
    pub partner_fee: Option<Amount>,
    pub payments: Vec<OrderPayments>,
}

/// A payment record after an edit from `p`: the submitted fields, marked as
/// postponed exactly when dates were submitted.
pub open spec fn edited_payment(p: OrderPayments, order_key: i32) -> Payment {
    Payment {
        value: p.value,
        payment_date: p.payment_date,
        due_date: p.due_date,
        payment_method: p.payment_method,
        currency: p.currency,
        postponed_payment: Some(p.postponed_dates is Some),
        order_id: order_key,
        open: p.open,
    }
}

/// The payment record that a submitted new payment describes.
pub open spec fn submitted_payment(p: OrderPayments, order_key: i32) -> Payment {
    Payment {
        value: p.value,
        payment_date: p.payment_date,
        due_date: p.due_date,
        payment_method: p.payment_method,
        currency: p.currency,
        postponed_payment: p.postponed_payment,
        order_id: order_key,
        open: p.open,
    }
}

/// A fee entry of an edit that charges a new fee rather than editing one.
pub open spec fn is_new_fee(f: JsonOrderFeesToCreate) -> bool {
    f.order_fee_pid is None
}

/// A submitted payment that is new, having no identifier yet.
pub open spec fn is_new_payment(p: OrderPayments) -> bool {
    p.pid is None
}

/// Where the payment at position `i` stands among the payments of the order
/// with key `order_key`, counting in table order from zero.
pub open spec fn rank_of(s: Seq<Entry<Payment>>, order_key: i32, i: int) -> int {
    s.take(i).filter(|e: Entry<Payment>| e.data.order_id == order_key).len() as int
}

/// The last of the fee entries `fees` that edits the fee of an order with
/// identifier `pid`.
pub open spec fn last_edit(fees: Seq<JsonOrderFeesToCreate>, pid: u128) -> Option<JsonOrderFeesToCreate>
    decreases fees.len(),
{
    if fees.len() == 0 {
        None
    } else if fees.last().order_fee_pid == Some(pid) {
        Some(fees.last())
    } else {
        last_edit(fees.drop_last(), pid)
    }
}

/// Looking for the last edit in a list with one more entry at its end.
pub proof fn lemma_last_edit_push(fees: Seq<JsonOrderFeesToCreate>, f: JsonOrderFeesToCreate, pid: u128)
    ensures
        last_edit(fees.push(f), pid) == if f.order_fee_pid == Some(pid) {
            Some(f)
        } else {
            last_edit(fees, pid)
        },
{
    assert(fees.push(f).drop_last() =~= fees);
    assert(fees.push(f).last() == f);
}

/// The fee of an order at position `i` of `old` after the fee entries `fees`
/// were carried out at `now`: the last entry that names it sets its
/// settlement flag, value and note.
pub open spec fn fee_after_edits(
    old: Seq<Entry<OrderFee>>,
    fees: Seq<JsonOrderFeesToCreate>,
    now: i64,
    i: int,
) -> Entry<OrderFee> {
    let e = old[i];
    match last_edit(fees, e.pid) {
        Some(f) => Entry {
            id: e.id,
            pid: e.pid,
            created_at: e.created_at,
            updated_at: now,
            data: OrderFee {
                fee_id: e.data.fee_id,
                order_id: e.data.order_id,
                open: f.open,
                value: f.value,
                info: f.info,
            },
        },
        None => e,
    }
}

/// The payout an order records: the one given, else zero.
pub open spec fn payout_or_zero(p: Option<Amount>) -> Amount {
    match p {
        Some(a) => a,
        None => Amount { bits: 0 },
    }
}

/// The dates that a payment request puts its payment off to.
pub open spec fn requested_dates(p: Option<Vec<Date>>) -> Seq<Date> {
    match p {
        Some(v) => v@,
        None => Seq::empty(),
    }
}

/// The payment record that a request describes, under the order with key `order_key`.
pub open spec fn requested_payment(p: OrderPaymentsRequest, order_key: i32) -> Payment {
    Payment {
        value: p.value,
        payment_date: p.payment_date,
        due_date: p.due_date,
        payment_method: p.payment_method,
        currency: p.currency,
        postponed_payment: p.postponed_payment,
        order_id: order_key,
        open: p.open,
    }
}

/// No record of `s` passes the filter, so it keeps nothing.
pub proof fn lemma_filter_none<R>(s: Seq<Entry<R>>, pred: spec_fn(Entry<R>) -> bool)
    requires
        forall|i: int| 0 <= i < s.len() ==> !pred(#[trigger] s[i]),
    ensures
        s.filter(pred) == Seq::<Entry<R>>::empty(),
{
    if s.filter(pred).len() > 0 {
        lemma_filter_member(s, pred, 0);
        s.lemma_filter_pred(pred, 0);
    }
    assert(s.filter(pred) =~= Seq::<Entry<R>>::empty());
}

/// An exact copy of a list of dates.
fn copy_dates(v: &Vec<Date>) -> (r: Vec<Date>)
    ensures
        r@ == v@,
{
    let mut r: Vec<Date> = Vec::new();
    let mut i: usize = 0;
    while i < v.len()
        invariant
            i <= v@.len(),
            r@ == v@.take(i as int),
        decreases v@.len() - i,
    {
        r.push(v[i]);
        assert(v@.take(i + 1) =~= v@.take(i as int).push(v@[i as int]));
        i = i + 1;
    }
    assert(v@.take(v@.len() as int) =~= v@);
    r
}

/// The creation request for a submitted new payment.
fn to_request(p: &OrderPayments) -> (r: OrderPaymentsRequest)
    ensures
        forall|k: i32| #[trigger] requested_payment(r, k) == submitted_payment(*p, k),
        requested_dates(r.postponed_dates) == requested_dates(p.postponed_dates),
{
    OrderPaymentsRequest {
        value: p.value,
        payment_date: p.payment_date,
        due_date: p.due_date,
        payment_method: copy_text(&p.payment_method),
        currency: copy_text(&p.currency),
        postponed_payment: p.postponed_payment,
        open: p.open,
        postponed_dates: match &p.postponed_dates {
            Some(v) => Some(copy_dates(v)),
            None => None,
        },
    }
}

impl Store {
    /// Every record that a new order names exists: client, process, seller and
    /// the fee of each fee to charge.
    pub open spec fn order_refs_known(&self, req: JsonOrderToCreate) -> bool {
        &&& self.clients.has_pid(req.client_pid)
        &&& self.processes.has_pid(req.process_pid)
        &&& self.sellers.has_pid(req.seller_pid)
        &&& forall|j: int| 0 <= j < req.fees@.len() ==> self.fees.has_pid(#[trigger] req.fees@[j].fee_pid)
    }

    /// The order record that a request describes, with its references resolved.
    pub open spec fn order_of(&self, req: JsonOrderToCreate) -> Order {
        Order {
            client_id: self.clients.key_of(req.client_pid),
            process_id: self.processes.key_of(req.process_pid),
            seller_id: self.sellers.key_of(req.seller_pid),
            open: req.open,
            payout: payout_or_zero(req.payout),
            fee: req.fee,
            partner_fee: req.partner_fee,
        }
    }

    /// The record of a fee charged on the order with key `order_key`, as requested.
    pub open spec fn requested_fee(&self, f: JsonOrderFeesToCreate, order_key: i32) -> OrderFee {
        OrderFee {
            fee_id: self.fees.key_of(f.fee_pid),
            order_id: order_key,
            open: f.open,
            value: f.value,
            info: f.info,
        }
    }

    /// Resolves the fee of each fee to charge, in order.
    fn resolve_fees(&self, fees: &Vec<JsonOrderFeesToCreate>) -> (r: Option<Vec<i32>>)
        requires
            self.wf(),
        ensures
            r is Some <==> forall|j: int|
                0 <= j < fees@.len() ==> self.fees.has_pid(#[trigger] fees@[j].fee_pid),
            r matches Some(keys) ==> keys@.len() == fees@.len() && forall|j: int|
                0 <= j < fees@.len() ==> #[trigger] keys@[j] == self.fees.key_of(fees@[j].fee_pid)
                    && self.fees.has_id(keys@[j]),
    {
        let mut keys: Vec<i32> = Vec::new();
        let mut j: usize = 0;
        while j < fees.len()
            invariant
                self.wf(),
                j <= fees@.len(),
                keys@.len() == j,
                forall|m: int| 0 <= m < j ==> self.fees.has_pid(#[trigger] fees@[m].fee_pid),
                forall|m: int|
                    0 <= m < j ==> #[trigger] keys@[m] == self.fees.key_of(fees@[m].fee_pid)
                        && self.fees.has_id(keys@[m]),
            decreases fees@.len() - j,
        {
            match self.fees.index_of_pid(fees[j].fee_pid) {
                Some(i) => {
                    keys.push(self.fees.get(i).id);
                },
                None => {
                    return None;
                },
            }
            j = j + 1;
        }
        Some(keys)
    }

    /// Charges the requested fees on the order with key `order_key`, one record
    /// each, in order; `keys` holds each fee's resolved key.
    fn add_fees(
        &mut self,
        now: i64,
        order_key: i32,
        fees: &Vec<JsonOrderFeesToCreate>,
        keys: &Vec<i32>,
    ) -> (r: Result<(), ModelError>)
        requires
            old(self).wf(),
            old(self).orders.has_id(order_key),
            keys@.len() == fees@.len(),
            forall|j: int|
                0 <= j < fees@.len() ==> #[trigger] keys@[j] == old(self).fees.key_of(
                    fees@[j].fee_pid,
                ) && old(self).fees.has_id(keys@[j]),
            old(self).fees_of(order_key) == Seq::<Entry<OrderFee>>::empty(),
        ensures
            final(self).wf(),
            final(self).same_except(*old(self), TableName::OrderFees),
            final(self).grown_from(*old(self)),
            only_draw_errors(r),
            r is Ok ==> final(self).order_fees@.len() == old(self).order_fees@.len() + fees@.len(),
            r is Ok ==> final(self).fees_of(order_key).map_values(|e: Entry<OrderFee>| e.data)
                == fees@.map_values(
                |f: JsonOrderFeesToCreate| old(self).requested_fee(f, order_key),
            ),
    {
        let ghost s0 = *self;
        let ghost pred = |of: Entry<OrderFee>| of.data.order_id == order_key;
        let ghost dat = |e: Entry<OrderFee>| e.data;
        let ghost want = |f: JsonOrderFeesToCreate| s0.requested_fee(f, order_key);
        let mut j: usize = 0;
        while j < fees.len()
            invariant
                self.wf(),
                s0 == *old(self),
                self.same_except(s0, TableName::OrderFees),
                self.grown_from(s0),
                self.order_fees@.len() == s0.order_fees@.len() + j,
                s0.orders.has_id(order_key),
                j <= fees@.len(),
                keys@.len() == fees@.len(),
                forall|m: int|
                    0 <= m < fees@.len() ==> #[trigger] keys@[m] == s0.fees.key_of(fees@[m].fee_pid)
                        && s0.fees.has_id(keys@[m]),
                pred == (|of: Entry<OrderFee>| of.data.order_id == order_key),
                dat == (|e: Entry<OrderFee>| e.data),
                want == (|f: JsonOrderFeesToCreate| s0.requested_fee(f, order_key)),
                self.fees_of(order_key).map_values(dat) == fees@.take(j as int).map_values(want),
            decreases fees@.len() - j,
        {
            let f = &fees[j];
            let req = CreateNewOrderFee {
                fee_id: keys[j],
                order_id: order_key,
                open: f.open,
                value: f.value,
                info: copy_text(&f.info),
            };
            let ghost before = *self;
            let ghost d = OrderFee {
                fee_id: keys@[j as int],
                order_id: order_key,
                open: f.open,
                value: f.value,
                info: f.info,
            };
            match self.insert_order_fee(fresh_pid(), now, req) {
                Ok(_) => {},
                Err(e) => {
                    return Err(e);
                },
            }
            proof {
                let entry = self.order_fees@.last();
                assert(self.order_fees@ == before.order_fees@.push(entry));
                assert(entry.data == d);
                lemma_filter_push(before.order_fees@, entry, pred);
                lemma_map_push(before.fees_of(order_key), entry, dat);
                assert(fees@.take(j + 1) =~= fees@.take(j as int).push(fees@[j as int]));
                lemma_map_push(fees@.take(j as int), fees@[j as int], want);
            }
            j = j + 1;
        }
        assert(fees@.take(fees@.len() as int) =~= fees@);
        Ok(())
    }

    /// The tables that adding payments leaves alone are as in `other`.
    pub open spec fn same_but_payments(&self, other: Store) -> bool {
        &&& self.processes == other.processes
        &&& self.partners == other.partners
        &&& self.sellers == other.sellers
        &&& self.clients == other.clients
        &&& self.fees == other.fees
        &&& self.order_fees == other.order_fees
        &&& self.orders == other.orders
    }

    /// Puts the payment with key `pkey` off to each of `ds`, in order.
    fn add_dates(&mut self, now: i64, pkey: i32, ds: &Vec<Date>) -> (r: Result<(), ModelError>)
        requires
            old(self).wf(),
            old(self).payments.has_id(pkey),
        ensures
            final(self).wf(),
            final(self).same_except(*old(self), TableName::PostponedPayments),
            final(self).grown_from(*old(self)),
            only_draw_errors(r),
            ds@.len() == 0 ==> r is Ok,
            r is Ok ==> final(self).dates_of(pkey) == old(self).dates_of(pkey) + ds@,
            forall|x: i32| x != pkey ==> #[trigger] final(self).dates_of(x) == old(self).dates_of(x),
    {
        let ghost s0 = *self;
        let ghost dpred = |q: Entry<PostponedPayment>| q.data.payment_id == pkey;
        let ghost ddate = |q: Entry<PostponedPayment>| q.data.postponed_date;
        let mut d: usize = 0;
        while d < ds.len()
            invariant
                s0 == *old(self),
                self.wf(),
                self.same_except(s0, TableName::PostponedPayments),
                self.grown_from(s0),
                s0.payments.has_id(pkey),
                d <= ds@.len(),
                dpred == (|q: Entry<PostponedPayment>| q.data.payment_id == pkey),
                ddate == (|q: Entry<PostponedPayment>| q.data.postponed_date),
                self.dates_of(pkey) == s0.dates_of(pkey) + ds@.take(d as int),
                forall|x: i32| x != pkey ==> #[trigger] self.dates_of(x) == s0.dates_of(x),
            decreases ds@.len() - d,
        {
            let ghost before = *self;
            let req = CreateNewPostponedPayment { payment_id: pkey, postponed_date: ds[d] };
            match self.insert_postponed_payment(fresh_pid(), now, req) {
                Ok(_) => {},
                Err(e) => {
                    return Err(e);
                },
            }
            proof {
                let entry = self.postponed_payments@.last();
                assert(self.postponed_payments@ == before.postponed_payments@.push(entry));
                assert forall|x: i32| x != pkey implies #[trigger] self.dates_of(x) == s0.dates_of(
                    x,
                ) by {
                    let px = |q: Entry<PostponedPayment>| q.data.payment_id == x;
                    lemma_filter_push(before.postponed_payments@, entry, px);
                    assert(entry.data.payment_id == pkey);
                    assert(!px(entry));
                    assert(before.dates_of(x) == s0.dates_of(x));
                }
                lemma_filter_push(before.postponed_payments@, entry, dpred);
                lemma_map_push(before.postponed_payments@.filter(dpred), entry, ddate);
                assert(ds@.take(d + 1) =~= ds@.take(d as int).push(ds@[d as int]));
                assert(s0.dates_of(pkey) + ds@.take(d + 1) =~= (s0.dates_of(pkey) + ds@.take(
                    d as int,
                )).push(ds@[d as int]));
            }
            d = d + 1;
        }
        assert(ds@.take(ds@.len() as int) =~= ds@);
        Ok(())
    }

    /// Adds a payment of the order with key `order_key`, as requested, and the
    /// dates it was put off to.
    fn add_payment(&mut self, now: i64, order_key: i32, p: &OrderPaymentsRequest) -> (r: Result<
        i32,
        ModelError,
    >)
        requires
            old(self).wf(),
            old(self).orders.has_id(order_key),
        ensures
            final(self).wf(),
            final(self).same_but_payments(*old(self)),
            final(self).grown_from(*old(self)),
            final(self).payments.next_id >= old(self).payments.next_id,
            only_draw_errors(r),
            forall|x: i32| x < old(self).payments.next_id ==> #[trigger] final(self).dates_of(x) == old(
                self,
            ).dates_of(x),
            r matches Ok(pkey) ==> {
                &&& pkey == old(self).payments.next_id
                &&& final(self).payments.next_id == pkey + 1
                &&& final(self).payments@.len() == old(self).payments@.len() + 1
                &&& final(self).payments@.drop_last() == old(self).payments@
                &&& final(self).payments@.last().id == pkey
                &&& final(self).payments@.last().data == requested_payment(*p, order_key)
                &&& final(self).dates_of(pkey) == requested_dates(p.postponed_dates)
                &&& forall|x: i32| x != pkey ==> #[trigger] final(self).dates_of(x) == old(
                    self,
                ).dates_of(x)
            },
    {
        let ghost s0 = *self;
        let req = CreateNewPayment {
            value: p.value,
            payment_date: p.payment_date,
            due_date: p.due_date,
            payment_method: copy_text(&p.payment_method),
            currency: copy_text(&p.currency),
            postponed_payment: p.postponed_payment,
            open: p.open,
        };
        let pkey = match self.insert_payment(fresh_pid(), now, order_key, req) {
            Ok(k) => k,
            Err(e) => {
                return Err(e);
            },
        };
        let ghost dpred = |q: Entry<PostponedPayment>| q.data.payment_id == pkey;
        proof {
            assert(self.payments@.drop_last() =~= s0.payments@);
            assert forall|i: int| 0 <= i < self.postponed_payments@.len() implies !dpred(
                #[trigger] self.postponed_payments@[i],
            ) by {
                let q = self.postponed_payments@[i];
                let k = choose|k: int|
                    0 <= k < s0.payments@.len() && #[trigger] s0.payments@[k].id == q.data.payment_id;
            }
            lemma_filter_none(self.postponed_payments@, dpred);
            assert(self.dates_of(pkey) =~= Seq::<Date>::empty());
        }
        match &p.postponed_dates {
            Some(ds) => {
                assert(self.payments@[self.payments@.len() - 1].id == pkey);
                match self.add_dates(now, pkey, ds) {
                    Ok(()) => {},
                    Err(e) => {
                        return Err(e);
                    },
                }
                assert(Seq::<Date>::empty() + ds@ =~= ds@);
            },
            None => {},
        }
        Ok(pkey)
    }

    /// Adds the requested payments of the order with key `order_key`, in order,
    /// each with the dates it was put off to.
    fn add_payments(&mut self, now: i64, order_key: i32, ps: &Vec<OrderPaymentsRequest>) -> (r:
        Result<(), ModelError>)
        requires
            old(self).wf(),
            old(self).orders.has_id(order_key),
            old(self).payments_of(order_key) == Seq::<Entry<Payment>>::empty(),
        ensures
            final(self).wf(),
            final(self).same_but_payments(*old(self)),
            final(self).grown_from(*old(self)),
            only_draw_errors(r),
            r is Ok ==> final(self).payments@.len() == old(self).payments@.len() + ps@.len(),
            forall|i: int|
                0 <= i < old(self).payments@.len() ==> final(self).dates_of(
                    #[trigger] old(self).payments@[i].id,
                ) == old(self).dates_of(old(self).payments@[i].id),
            r is Ok ==> {
                &&& final(self).payments_of(order_key).map_values(|e: Entry<Payment>| e.data)
                    == ps@.map_values(|p: OrderPaymentsRequest| requested_payment(p, order_key))
                &&& forall|j: int|
                    0 <= j < ps@.len() ==> final(self).dates_of(
                        #[trigger] final(self).payments_of(order_key)[j].id,
                    ) == requested_dates(ps@[j].postponed_dates)
            },
    {
        let ghost s0 = *self;
        let ghost pred = |e: Entry<Payment>| e.data.order_id == order_key;
        let ghost dat = |e: Entry<Payment>| e.data;
        let ghost want = |p: OrderPaymentsRequest| requested_payment(p, order_key);
        let mut j: usize = 0;
        while j < ps.len()
            invariant
                s0 == *old(self),
                self.wf(),
                s0.wf(),
                self.same_but_payments(s0),
                self.grown_from(s0),
                self.payments.next_id >= s0.payments.next_id,
                self.payments@.len() == s0.payments@.len() + j,
                forall|i: int|
                    0 <= i < s0.payments@.len() ==> self.dates_of(#[trigger] s0.payments@[i].id)
                        == s0.dates_of(s0.payments@[i].id),
                s0.orders.has_id(order_key),
                j <= ps@.len(),
                pred == (|e: Entry<Payment>| e.data.order_id == order_key),
                dat == (|e: Entry<Payment>| e.data),
                want == (|p: OrderPaymentsRequest| requested_payment(p, order_key)),
                self.payments_of(order_key).map_values(dat) == ps@.take(j as int).map_values(want),
                forall|m: int|
                    0 <= m < j ==> self.dates_of(#[trigger] self.payments_of(order_key)[m].id)
                        == requested_dates(ps@[m].postponed_dates),
            decreases ps@.len() - j,
        {
            let ghost before = *self;
            let pkey = match self.add_payment(now, order_key, &ps[j]) {
                Ok(k) => k,
                Err(e) => {
                    return Err(e);
                },
            };
            proof {
                let entry = self.payments@.last();
                assert(self.payments@ =~= before.payments@.push(entry));
                lemma_filter_push(before.payments@, entry, pred);
                lemma_map_push(before.payments_of(order_key), entry, dat);
                assert(ps@.take(j + 1) =~= ps@.take(j as int).push(ps@[j as int]));
                lemma_map_push(ps@.take(j as int), ps@[j as int], want);
                let old_len = before.payments_of(order_key).len();
                assert(old_len == j) by {
                    assert(before.payments_of(order_key).map_values(dat).len() == ps@.take(
                        j as int,
                    ).map_values(want).len());
                }
                assert(self.payments_of(order_key) == before.payments_of(order_key).push(entry));
                assert forall|m: int| 0 <= m < j + 1 implies self.dates_of(
                    #[trigger] self.payments_of(order_key)[m].id,
                ) == requested_dates(ps@[m].postponed_dates) by {
                    if m < j {
                        assert(self.payments_of(order_key)[m] == before.payments_of(order_key)[m]);
                        let k = lemma_filter_member(before.payments@, pred, m);
                        assert(before.payments@[k].id < before.payments.next_id);
                        assert(self.dates_of(before.payments_of(order_key)[m].id) == before.dates_of(
                            before.payments_of(order_key)[m].id,
                        ));
                    }
                }
            }
            j = j + 1;
        }
        assert(ps@.take(ps@.len() as int) =~= ps@);
        Ok(())
    }

    /// Creates an order with its fees, payments and postponed dates, and
    /// returns its view as the store then holds it. Every record the request
    /// names is looked up before anything is written; each new record gets a
    /// fresh random identifier and the time `now`.
    pub fn create_order(&mut self, now: i64, req: &JsonOrderToCreate) -> (r: Result<
        GetOrderReturn,
        ModelError,
    >)
        requires
            old(self).wf(),
        ensures
            final(self).wf(),
            !old(self).order_refs_known(*req) ==> r == Err::<GetOrderReturn, ModelError>(
                ModelError::EntityNotFound,
            ) && *final(self) == *old(self),
            old(self).order_refs_known(*req) ==> only_draw_errors(r),
            r == Err::<GetOrderReturn, ModelError>(ModelError::EntityNotFound) ==> !old(
                self,
            ).order_refs_known(*req),
            old(self).orders.next_id == KEY_LIMIT ==> r is Err && *final(self) == *old(self),
            final(self).grown_from(*old(self)),
            forall|i: int|
                0 <= i < old(self).payments@.len() ==> final(self).dates_of(
                    #[trigger] old(self).payments@[i].id,
                ) == old(self).dates_of(old(self).payments@[i].id),
            r matches Ok(v) ==> {
                let o = final(self).orders@.last();
                &&& final(self).orders@ == old(self).orders@.push(o)
                &&& o.id == old(self).orders.next_id
                &&& !old(self).orders.has_pid(o.pid)
                &&& o.created_at == now && o.updated_at == now
                &&& o.data == old(self).order_of(*req)
                &&& final(self).order_fees@.len() == old(self).order_fees@.len() + req.fees@.len()
                &&& final(self).payments@.len() == old(self).payments@.len() + req.payments@.len()
                &&& final(self).fees_of(o.id).map_values(|e: Entry<OrderFee>| e.data)
                    == req.fees@.map_values(
                    |f: JsonOrderFeesToCreate| old(self).requested_fee(f, o.id),
                )
                &&& final(self).payments_of(o.id).map_values(|e: Entry<Payment>| e.data)
                    == req.payments@.map_values(
                    |p: OrderPaymentsRequest| requested_payment(p, o.id),
                )
                &&& forall|j: int|
                    0 <= j < req.payments@.len() ==> final(self).dates_of(
                        #[trigger] final(self).payments_of(o.id)[j].id,
                    ) == requested_dates(req.payments@[j].postponed_dates)
                &&& final(self).order_view_ok(v, o)
                &&& final(self).processes == old(self).processes
                &&& final(self).partners == old(self).partners
                &&& final(self).sellers == old(self).sellers
                &&& final(self).clients == old(self).clients
                &&& final(self).fees == old(self).fees
            },
    {
        let ghost s0 = *self;
        let client_id = match self.clients.key_of_pid(req.client_pid) {
            Some(k) => k,
            None => {
                return Err(ModelError::EntityNotFound);
            },
        };
        let process_id = match self.processes.key_of_pid(req.process_pid) {
            Some(k) => k,
            None => {
                return Err(ModelError::EntityNotFound);
            },
        };
        let seller_id = match self.sellers.key_of_pid(req.seller_pid) {
            Some(k) => k,
            None => {
                return Err(ModelError::EntityNotFound);
            },
        };
        let fee_keys = match self.resolve_fees(&req.fees) {
            Some(keys) => keys,
            None => {
                return Err(ModelError::EntityNotFound);
            },
        };
        let payout = match req.payout {
            Some(a) => a,
            None => Amount { bits: 0 },
        };
        let order = Order {
            client_id,
            process_id,
            seller_id,
            open: req.open,
            payout,
            fee: req.fee,
            partner_fee: req.partner_fee,
        };
        proof {
            s0.clients.lemma_pos_of(s0.clients.pos_of(req.client_pid));
            s0.processes.lemma_pos_of(s0.processes.pos_of(req.process_pid));
            s0.sellers.lemma_pos_of(s0.sellers.pos_of(req.seller_pid));
            assert(s0.clients.has_id(client_id));
            assert(s0.processes.has_id(process_id));
            assert(s0.sellers.has_id(seller_id));
        }
        let order_key = match self.insert_order(fresh_pid(), now, order) {
            Ok(k) => k,
            Err(e) => {
                return Err(e);
            },
        };
        proof {
            assert(self.orders@[self.orders@.len() - 1].id == order_key);
            let fpred = |of: Entry<OrderFee>| of.data.order_id == order_key;
            assert forall|i: int| 0 <= i < self.order_fees@.len() implies !fpred(
                #[trigger] self.order_fees@[i],
            ) by {
                let f = self.order_fees@[i];
                let k = choose|k: int|
                    0 <= k < s0.orders@.len() && #[trigger] s0.orders@[k].id == f.data.order_id;
            }
            lemma_filter_none(self.order_fees@, fpred);
            let ppred = |e: Entry<Payment>| e.data.order_id == order_key;
            assert forall|i: int| 0 <= i < self.payments@.len() implies !ppred(
                #[trigger] self.payments@[i],
            ) by {
                let q = self.payments@[i];
                let k = choose|k: int|
                    0 <= k < s0.orders@.len() && #[trigger] s0.orders@[k].id == q.data.order_id;
            }
            lemma_filter_none(self.payments@, ppred);
        }
        match self.add_fees(now, order_key, &req.fees, &fee_keys) {
            Ok(()) => {},
            Err(e) => {
                return Err(e);
            },
        }
        let ghost s2 = *self;
        match self.add_payments(now, order_key, &req.payments) {
            Ok(()) => {},
            Err(e) => {
                return Err(e);
            },
        }
        proof {
            assert(self.fees_of(order_key) == s2.fees_of(order_key));
            assert(self.orders@ =~= s0.orders@.push(self.orders@.last()));
        }
        let last = self.orders.len() - 1;
        Ok(self.order_view(last))
    }

    /// The fee entry of an order edit can be carried out: a new fee names an
    /// existing fee, an edit names an existing fee of an order.
    pub open spec fn fee_edit_known(&self, f: JsonOrderFeesToCreate) -> bool {
        match f.order_fee_pid {
            None => self.fees.has_pid(f.fee_pid),
            Some(ofp) => self.order_fees.has_pid(ofp),
        }
    }

    /// Carries out one fee entry of an edit of the order with key `order_key`:
    /// without an identifier it charges the fee anew, with one it overwrites
    /// the settlement flag, value and note of that fee of an order.
    pub fn apply_fee_edit(&mut self, now: i64, order_key: i32, f: &JsonOrderFeesToCreate) -> (r:
        Result<(), ModelError>)
        requires
            old(self).wf(),
            old(self).orders.has_id(order_key),
        ensures
            final(self).wf(),
            final(self).same_except(*old(self), TableName::OrderFees),
            !old(self).fee_edit_known(*f) ==> r == Err::<(), ModelError>(ModelError::EntityNotFound)
                && *final(self) == *old(self),
            r is Ok ==> match f.order_fee_pid {
                None => {
                    &&& final(self).order_fees@.len() == old(self).order_fees@.len() + 1
                    &&& final(self).order_fees@.drop_last() == old(self).order_fees@
                    &&& final(self).order_fees@.last().id == old(self).order_fees.next_id
                    &&& final(self).order_fees@.last().data == old(self).requested_fee(*f, order_key)
                },
                Some(ofp) => {
                    let i = old(self).order_fees.pos_of(ofp);
                    let e = old(self).order_fees@[i];
                    final(self).order_fees@ == old(self).order_fees.rewritten(
                        i,
                        OrderFee {
                            fee_id: e.data.fee_id,
                            order_id: e.data.order_id,
                            open: f.open,
                            value: f.value,
                            info: f.info,
                        },
                        now,
                    )
                },
            },
            old(self).fee_edit_known(*f) && f.order_fee_pid is Some ==> r is Ok,
            old(self).fee_edit_known(*f) ==> only_draw_errors(r),
    {
        match f.order_fee_pid {
            None => {
                let fee_id = match self.fees.key_of_pid(f.fee_pid) {
                    Some(k) => k,
                    None => {
                        return Err(ModelError::EntityNotFound);
                    },
                };
                proof {
                    self.fees.lemma_pos_of(self.fees.pos_of(f.fee_pid));
                }
                let req = CreateNewOrderFee {
                    fee_id,
                    order_id: order_key,
                    open: f.open,
                    value: f.value,
                    info: copy_text(&f.info),
                };
                let ghost before = *self;
                match self.insert_order_fee(fresh_pid(), now, req) {
                    Ok(_) => {
                        assert(self.order_fees@.drop_last() =~= before.order_fees@);
                        Ok(())
                    },
                    Err(e) => Err(e),
                }
            },
            Some(ofp) => {
                let i = match self.order_fees.index_of_pid(ofp) {
                    Some(i) => i,
                    None => {
                        return Err(ModelError::EntityNotFound);
                    },
                };
                let e = self.order_fees.get(i);
                let req = CreateNewOrderFee {
                    fee_id: e.data.fee_id,
                    order_id: e.data.order_id,
                    open: f.open,
                    value: f.value,
                    info: copy_text(&f.info),
                };
                proof {
                    assert(self.order_fees@[i as int] == e);
                }
                match self.update_order_fee(ofp, now, req) {
                    Ok(_) => Ok(()),
                    Err(e) => Err(e),
                }
            },
        }
    }

    /// Applies a submitted payment to the payment at position `i`: puts it off
    /// to the submitted dates, then overwrites its fields, marking it postponed
    /// exactly when dates were submitted.
    pub fn apply_payment_edit(&mut self, now: i64, i: usize, p: &OrderPayments) -> (r: Result<
        (),
        ModelError,
    >)
        requires
            old(self).wf(),
            i < old(self).payments@.len(),
        ensures
            final(self).wf(),
            final(self).same_but_payments(*old(self)),
            final(self).payments.next_id == old(self).payments.next_id,
            only_draw_errors(r),
            requested_dates(p.postponed_dates).len() == 0 ==> r is Ok,
            r is Ok ==> {
                let e = old(self).payments@[i as int];
                &&& final(self).payments@ == old(self).payments.rewritten(
                    i as int,
                    edited_payment(*p, e.data.order_id),
                    now,
                )
                &&& final(self).dates_of(e.id) == old(self).dates_of(e.id) + requested_dates(
                    p.postponed_dates,
                )
                &&& forall|x: i32| x != e.id ==> #[trigger] final(self).dates_of(x) == old(
                    self,
                ).dates_of(x)
            },
    {
        let ghost s0 = *self;
        let e = self.payments.get(i);
        let pkey = e.id;
        let ppid = e.pid;
        let order_id = e.data.order_id;
        proof {
            assert(self.payments.has_id(pkey)) by {
                assert(self.payments@[i as int].id == pkey);
            }
            self.payments.lemma_pos_of(i as int);
        }
        match &p.postponed_dates {
            Some(ds) => {
                match self.add_dates(now, pkey, ds) {
                    Ok(()) => {},
                    Err(e) => {
                        return Err(e);
                    },
                }
            },
            None => {
                assert(s0.dates_of(pkey) + Seq::<Date>::empty() =~= s0.dates_of(pkey));
            },
        }
        let req = CreateNewPayment {
            value: p.value,
            payment_date: p.payment_date,
            due_date: p.due_date,
            payment_method: copy_text(&p.payment_method),
            currency: copy_text(&p.currency),
            postponed_payment: Some(p.postponed_dates.is_some()),
            open: p.open,
        };
        let ghost s1 = *self;
        match self.update_payment(ppid, now, req) {
            Ok(_) => {},
            Err(e) => {
                return Err(e);
            },
        }
        proof {
            assert(self.postponed_payments == s1.postponed_payments);
            assert(s1.payments == s0.payments);
            assert(s1.payments.pos_of(ppid) == i);
            assert(self.payments@ == s0.payments.rewritten(i as int, edited_payment(*p, order_id), now));
            assert(self.dates_of(pkey) == s1.dates_of(pkey));
            assert forall|x: i32| x != pkey implies #[trigger] self.dates_of(x) == s0.dates_of(x) by {
                assert(self.dates_of(x) == s1.dates_of(x));
            }
        }
        Ok(())
    }

    /// The positions of the payments of the order with key `order_key`, in table order.
    fn payment_positions(&self, order_key: i32) -> (pos: Vec<usize>)
        ensures
            pos@.len() == self.payments_of(order_key).len(),
            forall|j: int|
                0 <= j < pos@.len() ==> (#[trigger] pos@[j]) < self.payments@.len()
                    && self.payments@[pos@[j] as int].data.order_id == order_key && rank_of(
                    self.payments@,
                    order_key,
                    pos@[j] as int,
                ) == j,
            forall|i: int|
                0 <= i < self.payments@.len() && (#[trigger] self.payments@[i]).data.order_id
                    == order_key ==> rank_of(self.payments@, order_key, i) < pos@.len() && pos@[rank_of(
                    self.payments@,
                    order_key,
                    i,
                )] == i,
    {
        let ghost s = self.payments@;
        let ghost pred = |e: Entry<Payment>| e.data.order_id == order_key;
        let mut pos: Vec<usize> = Vec::new();
        let mut i: usize = 0;
        while i < self.payments.len()
            invariant
                s == self.payments@,
                pred == (|e: Entry<Payment>| e.data.order_id == order_key),
                i <= s.len(),
                pos@.len() == rank_of(s, order_key, i as int),
                forall|j: int|
                    0 <= j < pos@.len() ==> (#[trigger] pos@[j]) < i && s[pos@[j] as int].data.order_id
                        == order_key && rank_of(s, order_key, pos@[j] as int) == j,
                forall|k: int|
                    0 <= k < i && (#[trigger] s[k]).data.order_id == order_key ==> rank_of(
                        s,
                        order_key,
                        k,
                    ) < pos@.len() && pos@[rank_of(s, order_key, k)] == k,
            decreases s.len() - i,
        {
            proof {
                assert(s.take(i + 1) =~= s.take(i as int).push(s[i as int]));
                lemma_filter_push(s.take(i as int), s[i as int], pred);
            }
            if self.payments.get(i).data.order_id == order_key {
                pos.push(i);
            }
            i = i + 1;
        }
        assert(s.take(s.len() as int) =~= s);
        pos
    }

    /// The order record after an edit from `req`, with its references resolved.
    pub open spec fn edited_order(&self, req: CreateNewOrder) -> Order {
        Order {
            client_id: self.clients.key_of(req.client_pid),
            process_id: self.processes.key_of(req.process_pid),
            seller_id: self.sellers.key_of(req.seller_pid),
            open: req.open,
            payout: payout_or_zero(req.payout),
            fee: req.fee,
            partner_fee: req.partner_fee,
        }
    }

    /// Every record that an order edit names exists: client, process, seller,
    /// and what each fee entry names.
    pub open spec fn edit_refs_known(&self, req: CreateNewOrder) -> bool {
        &&& self.clients.has_pid(req.client_pid)
        &&& self.processes.has_pid(req.process_pid)
        &&& self.sellers.has_pid(req.seller_pid)
        &&& forall|j: int| 0 <= j < req.fees@.len() ==> self.fee_edit_known(#[trigger] req.fees@[j])
    }

    /// An edit of the order with key `key` that writes no new record, so draws
    /// no identifier: every fee entry edits a fee already charged, and the
    /// payments are either edited in place with no dates submitted, or all
    /// submitted with identifiers, which leaves them out.
    pub open spec fn edit_draws_nothing(&self, key: i32, req: CreateNewOrder) -> bool {
        &&& forall|j: int| 0 <= j < req.fees@.len() ==> (#[trigger] req.fees@[j]).order_fee_pid is Some
        &&& if self.payments_of(key).len() == req.payments@.len() {
            forall|j: int|
                0 <= j < req.payments@.len() ==> requested_dates(
                    (#[trigger] req.payments@[j]).postponed_dates,
                ).len() == 0
        } else {
            forall|j: int| 0 <= j < req.payments@.len() ==> (#[trigger] req.payments@[j]).pid is Some
        }
    }

    /// Whether every fee entry names what exists.
    fn fee_edits_known(&self, fees: &Vec<JsonOrderFeesToCreate>) -> (b: bool)
        requires
            self.wf(),
        ensures
            b == forall|j: int| 0 <= j < fees@.len() ==> self.fee_edit_known(#[trigger] fees@[j]),
    {
        let mut j: usize = 0;
        while j < fees.len()
            invariant
                self.wf(),
                j <= fees@.len(),
                forall|m: int| 0 <= m < j ==> self.fee_edit_known(#[trigger] fees@[m]),
            decreases fees@.len() - j,
        {
            let f = &fees[j];
            let known = match f.order_fee_pid {
                None => self.fees.index_of_pid(f.fee_pid).is_some(),
                Some(ofp) => self.order_fees.index_of_pid(ofp).is_some(),
            };
            if !known {
                return false;
            }
            j = j + 1;
        }
        true
    }

    /// This store's fees of orders are `old`'s after the entries `fees` of an
    /// edit of the order with key `order_key` were carried out at `now`: each
    /// charged fee named by an entry takes the last such entry's fields, and
    /// one new fee of the order follows for each entry without an identifier.
    pub open spec fn fees_edited(
        &self,
        old: Store,
        order_key: i32,
        fees: Seq<JsonOrderFeesToCreate>,
        now: i64,
    ) -> bool {
        let fresh = fees.filter(|f: JsonOrderFeesToCreate| is_new_fee(f));
        &&& self.order_fees@.len() == old.order_fees@.len() + fresh.len()
        &&& forall|i: int|
            0 <= i < old.order_fees@.len() ==> #[trigger] self.order_fees@[i] == fee_after_edits(
                old.order_fees@,
                fees,
                now,
                i,
            )
        &&& forall|k: int|
            0 <= k < fresh.len() ==> (#[trigger] self.order_fees@[old.order_fees@.len() + k]).data
                == old.requested_fee(fresh[k], order_key)
    }

    /// Carries out each fee entry of an order edit, in order.
    fn edit_fees(&mut self, now: i64, order_key: i32, fees: &Vec<JsonOrderFeesToCreate>) -> (r:
        Result<(), ModelError>)
        requires
            old(self).wf(),
            old(self).orders.has_id(order_key),
            forall|j: int| 0 <= j < fees@.len() ==> old(self).fee_edit_known(#[trigger] fees@[j]),
        ensures
            final(self).wf(),
            final(self).same_except(*old(self), TableName::OrderFees),
            only_draw_errors(r),
            (forall|j: int| 0 <= j < fees@.len() ==> (#[trigger] fees@[j]).order_fee_pid is Some) ==> r is Ok,
            r is Ok ==> final(self).fees_edited(*old(self), order_key, fees@, now),
    {
        let ghost s0 = *self;
        let ghost isnew = |f: JsonOrderFeesToCreate| is_new_fee(f);
        let mut j: usize = 0;
        while j < fees.len()
            invariant
                s0 == *old(self),
                self.wf(),
                self.same_except(s0, TableName::OrderFees),
                s0.orders.has_id(order_key),
                j <= fees@.len(),
                isnew == (|f: JsonOrderFeesToCreate| is_new_fee(f)),
                forall|m: int| 0 <= m < fees@.len() ==> self.fee_edit_known(#[trigger] fees@[m]),
                s0.wf(),
                forall|m: int| 0 <= m < fees@.len() ==> s0.fee_edit_known(#[trigger] fees@[m]),
                self.fees_edited(s0, order_key, fees@.take(j as int), now),
            decreases fees@.len() - j,
        {
            let ghost before = *self;
            let ghost f = fees@[j as int];
            let ghost done = fees@.take(j as int);
            let ghost n0 = s0.order_fees@.len();
            let ghost i0: int = match f.order_fee_pid {
                Some(ofp) => s0.order_fees.pos_of(ofp),
                None => 0,
            };
            proof {
                if let Some(ofp) = f.order_fee_pid {
                    assert(s0.fee_edit_known(f));
                    assert(0 <= i0 < n0 && s0.order_fees@[i0].pid == ofp);
                    assert(before.order_fees@[i0] == fee_after_edits(s0.order_fees@, done, now, i0));
                    before.order_fees.lemma_pos_of(i0);
                }
            }
            match self.apply_fee_edit(now, order_key, &fees[j]) {
                Ok(()) => {},
                Err(e) => {
                    return Err(e);
                },
            }
            proof {
                assert(fees@.take(j + 1) =~= done.push(f));
                lemma_filter_push(done, f, isnew);
                assert forall|i: int| 0 <= i < n0 implies #[trigger] self.order_fees@[i]
                    == fee_after_edits(s0.order_fees@, fees@.take(j + 1), now, i) by {
                    lemma_last_edit_push(done, f, s0.order_fees@[i].pid);
                    assert(before.order_fees@[i] == fee_after_edits(s0.order_fees@, done, now, i));
                    if f.order_fee_pid is Some && i != i0 {
                        assert(s0.order_fees@[i].pid != s0.order_fees@[i0].pid);
                    }
                }
                let fresh0 = done.filter(isnew);
                assert forall|k: int| 0 <= k < fees@.take(j + 1).filter(isnew).len() implies (
                #[trigger] self.order_fees@[n0 + k]).data == s0.requested_fee(
                    fees@.take(j + 1).filter(isnew)[k],
                    order_key,
                ) by {
                    if k < fresh0.len() {
                        assert(self.order_fees@[n0 + k] == before.order_fees@[n0 + k]);
                    }
                }
                lemma_keys_kept(before.order_fees, self.order_fees);
                assert forall|m: int| 0 <= m < fees@.len() implies self.fee_edit_known(
                    #[trigger] fees@[m],
                ) by {
                    assert(before.fee_edit_known(fees@[m]));
                }
            }
            j = j + 1;
        }
        assert(fees@.take(fees@.len() as int) =~= fees@);
        Ok(())
    }

    /// The payment at position `i` after an edit of the payments of the order
    /// with key `order_key` from the submitted `ps`, matched by rank.
    pub open spec fn payment_after_edit(
        &self,
        order_key: i32,
        ps: Seq<OrderPayments>,
        now: i64,
        i: int,
    ) -> Entry<Payment> {
        let e = self.payments@[i];
        Entry {
            id: e.id,
            pid: e.pid,
            created_at: e.created_at,
            updated_at: now,
            data: edited_payment(ps[rank_of(self.payments@, order_key, i)], order_key),
        }
    }

    /// This store's payments are `old`'s after the payments of the order with
    /// key `order_key` took, in turn, the fields and dates submitted in `ps`.
    pub open spec fn payments_edited(
        &self,
        old: Store,
        order_key: i32,
        ps: Seq<OrderPayments>,
        now: i64,
    ) -> bool {
        &&& self.payments@.len() == old.payments@.len()
        &&& forall|i: int|
            0 <= i < old.payments@.len() ==> #[trigger] self.payments@[i] == if old.payments@[i].data.order_id
                == order_key {
                old.payment_after_edit(order_key, ps, now, i)
            } else {
                old.payments@[i]
            }
        &&& forall|i: int|
            0 <= i < old.payments@.len() ==> #[trigger] self.dates_of(old.payments@[i].id) == if old.payments@[i].data.order_id
                == order_key {
                old.dates_of(old.payments@[i].id) + requested_dates(
                    ps[rank_of(old.payments@, order_key, i)].postponed_dates,
                )
            } else {
                old.dates_of(old.payments@[i].id)
            }
    }

    /// This store's payments are `old`'s followed by one for each submitted
    /// payment without an identifier, in order, under the order with key
    /// `order_key`, each with the dates submitted for it.
    pub open spec fn payments_appended(&self, old: Store, order_key: i32, ps: Seq<OrderPayments>) -> bool {
        let fresh = ps.filter(|p: OrderPayments| is_new_payment(p));
        &&& self.payments@.len() == old.payments@.len() + fresh.len()
        &&& forall|i: int| 0 <= i < old.payments@.len() ==> #[trigger] self.payments@[i] == old.payments@[i]
        &&& forall|k: int|
            0 <= k < fresh.len() ==> {
                let e = #[trigger] self.payments@[old.payments@.len() + k];
                &&& e.data == submitted_payment(fresh[k], order_key)
                &&& self.dates_of(e.id) == requested_dates(fresh[k].postponed_dates)
            }
    }

    /// Edits the payments of the order with key `order_key`, found at `pos`,
    /// from the submitted payments matched by rank.
    fn edit_payments(&mut self, now: i64, order_key: i32, pos: &Vec<usize>, ps: &Vec<OrderPayments>) -> (r:
        Result<(), ModelError>)
        requires
            old(self).wf(),
            pos@.len() == ps@.len(),
            forall|j: int|
                0 <= j < pos@.len() ==> (#[trigger] pos@[j]) < old(self).payments@.len()
                    && old(self).payments@[pos@[j] as int].data.order_id == order_key && rank_of(
                    old(self).payments@,
                    order_key,
                    pos@[j] as int,
                ) == j,
            forall|i: int|
                0 <= i < old(self).payments@.len() && (#[trigger] old(self).payments@[i]).data.order_id
                    == order_key ==> rank_of(old(self).payments@, order_key, i) < pos@.len() && pos@[rank_of(
                    old(self).payments@,
                    order_key,
                    i,
                )] == i,
        ensures
            final(self).wf(),
            final(self).same_but_payments(*old(self)),
            only_draw_errors(r),
            (forall|j: int|
                0 <= j < ps@.len() ==> requested_dates((#[trigger] ps@[j]).postponed_dates).len()
                    == 0) ==> r is Ok,
            r is Ok ==> final(self).payments_edited(*old(self), order_key, ps@, now),
    {
        let ghost s0 = *self;
        let mut j: usize = 0;
        while j < pos.len()
            invariant
                s0 == *old(self),
                s0.wf(),
                self.wf(),
                self.same_but_payments(s0),
                pos@.len() == ps@.len(),
                j <= pos@.len(),
                forall|m: int|
                    0 <= m < pos@.len() ==> (#[trigger] pos@[m]) < s0.payments@.len()
                        && s0.payments@[pos@[m] as int].data.order_id == order_key && rank_of(
                        s0.payments@,
                        order_key,
                        pos@[m] as int,
                    ) == m,
                forall|i: int|
                    0 <= i < s0.payments@.len() && (#[trigger] s0.payments@[i]).data.order_id
                        == order_key ==> rank_of(s0.payments@, order_key, i) < pos@.len() && pos@[rank_of(
                        s0.payments@,
                        order_key,
                        i,
                    )] == i,
                self.payments@.len() == s0.payments@.len(),
                forall|i: int|
                    0 <= i < s0.payments@.len() ==> #[trigger] self.payments@[i] == if s0.payments@[i].data.order_id
                        == order_key && rank_of(s0.payments@, order_key, i) < j {
                        s0.payment_after_edit(order_key, ps@, now, i)
                    } else {
                        s0.payments@[i]
                    },
                forall|i: int|
                    0 <= i < s0.payments@.len() ==> #[trigger] self.dates_of(s0.payments@[i].id) == if s0.payments@[i].data.order_id
                        == order_key && rank_of(s0.payments@, order_key, i) < j {
                        s0.dates_of(s0.payments@[i].id) + requested_dates(
                            ps@[rank_of(s0.payments@, order_key, i)].postponed_dates,
                        )
                    } else {
                        s0.dates_of(s0.payments@[i].id)
                    },
            decreases pos@.len() - j,
        {
            let at = pos[j];
            let ghost before = *self;
            proof {
                assert(self.payments@[at as int] == s0.payments@[at as int]);
            }
            match self.apply_payment_edit(now, at, &ps[j]) {
                Ok(()) => {},
                Err(e) => {
                    return Err(e);
                },
            }
            proof {
                let key = s0.payments@[at as int].id;
                assert forall|i: int| 0 <= i < s0.payments@.len() implies #[trigger] self.payments@[i]
                    == if s0.payments@[i].data.order_id == order_key && rank_of(
                    s0.payments@,
                    order_key,
                    i,
                ) < j + 1 {
                    s0.payment_after_edit(order_key, ps@, now, i)
                } else {
                    s0.payments@[i]
                } by {
                    if i != at {
                        assert(self.payments@[i] == before.payments@[i]);
                        if s0.payments@[i].data.order_id == order_key {
                            assert(pos@[rank_of(s0.payments@, order_key, i)] == i);
                        }
                    }
                }
                assert forall|i: int| 0 <= i < s0.payments@.len() implies #[trigger] self.dates_of(
                    s0.payments@[i].id,
                ) == if s0.payments@[i].data.order_id == order_key && rank_of(
                    s0.payments@,
                    order_key,
                    i,
                ) < j + 1 {
                    s0.dates_of(s0.payments@[i].id) + requested_dates(
                        ps@[rank_of(s0.payments@, order_key, i)].postponed_dates,
                    )
                } else {
                    s0.dates_of(s0.payments@[i].id)
                } by {
                    if i != at {
                        assert(s0.payments@[i].id != key);
                        assert(self.dates_of(s0.payments@[i].id) == before.dates_of(s0.payments@[i].id));
                        if s0.payments@[i].data.order_id == order_key {
                            assert(pos@[rank_of(s0.payments@, order_key, i)] == i);
                        }
                    }
                }
            }
            j = j + 1;
        }
        proof {
            assert forall|i: int| 0 <= i < s0.payments@.len() && s0.payments@[i].data.order_id
                == order_key implies rank_of(s0.payments@, order_key, i) < j by {
                assert(s0.payments@[i].data.order_id == order_key);
            }
        }
        Ok(())
    }

    /// Adds, in order, each submitted payment that has no identifier yet.
    fn add_new_payments(&mut self, now: i64, order_key: i32, ps: &Vec<OrderPayments>) -> (r: Result<
        (),
        ModelError,
    >)
        requires
            old(self).wf(),
            old(self).orders.has_id(order_key),
        ensures
            final(self).wf(),
            final(self).same_but_payments(*old(self)),
            only_draw_errors(r),
            (forall|j: int| 0 <= j < ps@.len() ==> (#[trigger] ps@[j]).pid is Some) ==> r is Ok,
            r is Ok ==> final(self).payments_appended(*old(self), order_key, ps@),
    {
        let ghost s0 = *self;
        let ghost isnew = |p: OrderPayments| is_new_payment(p);
        let mut j: usize = 0;
        while j < ps.len()
            invariant
                s0 == *old(self),
                s0.wf(),
                self.wf(),
                self.same_but_payments(s0),
                s0.orders.has_id(order_key),
                j <= ps@.len(),
                isnew == (|p: OrderPayments| is_new_payment(p)),
                self.payments@.len() == s0.payments@.len() + ps@.take(j as int).filter(isnew).len(),
                forall|i: int| 0 <= i < s0.payments@.len() ==> #[trigger] self.payments@[i] == s0.payments@[i],
                forall|k: int|
                    0 <= k < ps@.take(j as int).filter(isnew).len() ==> {
                        let e = #[trigger] self.payments@[s0.payments@.len() + k];
                        &&& e.data == submitted_payment(ps@.take(j as int).filter(isnew)[k], order_key)
                        &&& self.dates_of(e.id) == requested_dates(
                            ps@.take(j as int).filter(isnew)[k].postponed_dates,
                        )
                    },
            decreases ps@.len() - j,
        {
            let ghost before = *self;
            let ghost done = ps@.take(j as int).filter(isnew);
            proof {
                assert(ps@.take(j + 1) =~= ps@.take(j as int).push(ps@[j as int]));
                lemma_filter_push(ps@.take(j as int), ps@[j as int], isnew);
            }
            if ps[j].pid.is_none() {
                let req = to_request(&ps[j]);
                let pkey = match self.add_payment(now, order_key, &req) {
                    Ok(k) => k,
                    Err(e) => {
                        return Err(e);
                    },
                };
                proof {
                    let n0 = s0.payments@.len();
                    assert(self.payments@ =~= before.payments@.push(self.payments@.last()));
                    assert forall|k: int|
                        0 <= k < ps@.take(j + 1).filter(isnew).len() implies {
                        let e = #[trigger] self.payments@[n0 + k];
                        &&& e.data == submitted_payment(ps@.take(j + 1).filter(isnew)[k], order_key)
                        &&& self.dates_of(e.id) == requested_dates(
                            ps@.take(j + 1).filter(isnew)[k].postponed_dates,
                        )
                    } by {
                        if k < done.len() {
                            assert(self.payments@[n0 + k] == before.payments@[n0 + k]);
                            let e = before.payments@[n0 + k];
                            assert(e.id < before.payments.next_id);
                            assert(self.dates_of(e.id) == before.dates_of(e.id));
                        } else {
                            assert(requested_payment(req, order_key) == submitted_payment(
                                ps@[j as int],
                                order_key,
                            ));
                        }
                    }
                }
            }
            j = j + 1;
        }
        assert(ps@.take(ps@.len() as int) =~= ps@);
        Ok(())
    }

    /// Edits the order with identifier `pid` at time `now`. Every record the
    /// edit names is looked up before anything is written. The order takes the
    /// new client, process, seller and amounts; each fee entry is
    /// charged anew or edited in place; when as many payments are submitted as
    /// the order has, they are edited in table order, each put off to the dates
    /// submitted with it; otherwise only the submitted payments without an
    /// identifier are added and the existing ones stay as they are. Returns the
    /// views of all orders as the store then holds them.
    pub fn update_order(&mut self, now: i64, pid: u128, req: &CreateNewOrder) -> (r: Result<
        Vec<GetOrderReturn>,
        ModelError,
    >)
        requires
            old(self).wf(),
        ensures
            final(self).wf(),
            !old(self).orders.has_pid(pid) || !old(self).edit_refs_known(*req) ==> r == Err::<
                Vec<GetOrderReturn>,
                ModelError,
            >(ModelError::EntityNotFound) && *final(self) == *old(self),
            r == Err::<Vec<GetOrderReturn>, ModelError>(ModelError::EntityNotFound) ==> !old(
                self,
            ).orders.has_pid(pid) || !old(self).edit_refs_known(*req),
            old(self).orders.has_pid(pid) && old(self).edit_refs_known(*req) ==> only_draw_errors(r),
            old(self).orders.has_pid(pid) && old(self).edit_refs_known(*req) && old(
                self,
            ).edit_draws_nothing(old(self).orders@[old(self).orders.pos_of(pid)].id, *req) ==> r is Ok,
            r matches Ok(v) ==> {
                let i = old(self).orders.pos_of(pid);
                let o = old(self).orders@[i];
                &&& final(self).orders.next_id == old(self).orders.next_id
                &&& final(self).orders@ == old(self).orders.rewritten(
                    i,
                    old(self).edited_order(*req),
                    now,
                )
                &&& final(self).processes == old(self).processes
                &&& final(self).partners == old(self).partners
                &&& final(self).sellers == old(self).sellers
                &&& final(self).clients == old(self).clients
                &&& final(self).fees == old(self).fees
                &&& final(self).fees_edited(*old(self), o.id, req.fees@, now)
                &&& old(self).payments_of(o.id).len() == req.payments@.len() ==> final(self).payments_edited(*old(self), o.id, req.payments@, now)
                &&& old(self).payments_of(o.id).len() != req.payments@.len() ==> final(self).payments_appended(*old(self), o.id, req.payments@)
                &&& v@.len() == final(self).orders@.len()
                &&& forall|k: int|
                    0 <= k < v@.len() ==> final(self).order_view_ok(#[trigger] v@[k], final(self).orders@[k])
            },
    {
        let ghost s0 = *self;
        let i = match self.orders.index_of_pid(pid) {
            Some(i) => i,
            None => {
                return Err(ModelError::EntityNotFound);
            },
        };
        let client_id = match self.clients.key_of_pid(req.client_pid) {
            Some(k) => k,
            None => {
                return Err(ModelError::EntityNotFound);
            },
        };
        let process_id = match self.processes.key_of_pid(req.process_pid) {
            Some(k) => k,
            None => {
                return Err(ModelError::EntityNotFound);
            },
        };
        if !self.fee_edits_known(&req.fees) {
            return Err(ModelError::EntityNotFound);
        }
        let order_key = self.orders.get(i).id;
        let seller_id = match self.sellers.key_of_pid(req.seller_pid) {
            Some(k) => k,
            None => {
                return Err(ModelError::EntityNotFound);
            },
        };
        let payout = match req.payout {
            Some(a) => a,
            None => Amount { bits: 0 },
        };
        let data = Order {
            client_id,
            process_id,
            seller_id,
            open: req.open,
            payout,
            fee: req.fee,
            partner_fee: req.partner_fee,
        };
        proof {
            s0.clients.lemma_pos_of(s0.clients.pos_of(req.client_pid));
            s0.processes.lemma_pos_of(s0.processes.pos_of(req.process_pid));
            assert(s0.clients.has_id(client_id));
            assert(s0.processes.has_id(process_id));
            s0.sellers.lemma_pos_of(s0.sellers.pos_of(req.seller_pid));
            assert(s0.sellers.has_id(seller_id));
        }
        self.orders.replace(i, data, now);
        proof {
            lemma_keys_kept(s0.orders, self.orders);
            assert forall|k: int| 0 <= k < self.orders@.len() implies {
                let o = #[trigger] self.orders@[k];
                &&& self.clients.has_id(o.data.client_id)
                &&& self.processes.has_id(o.data.process_id)
                &&& self.sellers.has_id(o.data.seller_id)
            } by {
                if k != i {
                    assert(self.orders@[k] == s0.orders@[k]);
                }
            }
            assert(self.orders@[i as int].id == order_key);
        }
        match self.edit_fees(now, order_key, &req.fees) {
            Ok(()) => {},
            Err(e) => {
                return Err(e);
            },
        }
        let ghost s2 = *self;
        let pos = self.payment_positions(order_key);
        if pos.len() == req.payments.len() {
            match self.edit_payments(now, order_key, &pos, &req.payments) {
                Ok(()) => {},
                Err(e) => {
                    return Err(e);
                },
            }
        } else {
            match self.add_new_payments(now, order_key, &req.payments) {
                Ok(()) => {},
                Err(e) => {
                    return Err(e);
                },
            }
        }
        proof {
            assert(s2.payments == s0.payments);
            assert(s2.postponed_payments == s0.postponed_payments);
        }
        Ok(self.find_all_orders())
    }

    /// Edits the order whose identifier is written in `pid`, as `update_order` does.
    pub fn update_order_by_pid(&mut self, now: i64, pid: &str, req: &CreateNewOrder) -> (r: Result<
        Vec<GetOrderReturn>,
        ModelError,
    >)
        requires
            old(self).wf(),
        ensures
            final(self).wf(),
            uuid_parse(pid@) is None ==> r == Err::<Vec<GetOrderReturn>, ModelError>(
                ModelError::EntityNotFound,
            ) && *final(self) == *old(self),
            match uuid_parse(pid@) {
                Some(u) => {
                    &&& !old(self).orders.has_pid(u) || !old(self).edit_refs_known(*req) ==> r
                        == Err::<Vec<GetOrderReturn>, ModelError>(ModelError::EntityNotFound)
                        && *final(self) == *old(self)
                    &&& old(self).orders.has_pid(u) && old(self).edit_refs_known(*req)
                        ==> only_draw_errors(r)
                    &&& old(self).orders.has_pid(u) && old(self).edit_refs_known(*req) && old(
                        self,
                    ).edit_draws_nothing(old(self).orders@[old(self).orders.pos_of(u)].id, *req)
                        ==> r is Ok
                },
                None => true,
            },
    {
        match parse_pid(pid) {
            Some(u) => self.update_order(now, u, req),
            None => Err(ModelError::EntityNotFound),
        }
    }

    /// Deletes the order with identifier `pid`, with its fees, payments and
    /// postponed dates, and answers with the views of the orders that remain.
    pub fn delete_order(&mut self, pid: u128) -> (r: Result<Vec<GetOrderReturn>, ModelError>)
        requires
            old(self).wf(),
        ensures
            final(self).wf(),
            r is Err <==> !old(self).orders.has_pid(pid),
            r is Err ==> r == Err::<Vec<GetOrderReturn>, ModelError>(ModelError::EntityNotFound)
                && *final(self) == *old(self),
            r matches Ok(v) ==> {
                &&& final(self).purged(*old(self), TableName::Orders, old(self).orders.key_of(pid))
                &&& v@.len() == final(self).orders@.len()
                &&& forall|k: int|
                    0 <= k < v@.len() ==> final(self).order_view_ok(#[trigger] v@[k], final(self).orders@[k])
            },
    {
        match self.delete(TableName::Orders, pid) {
            Ok(()) => Ok(self.find_all_orders()),
            Err(e) => Err(e),
        }
    }
}

} // verus!
