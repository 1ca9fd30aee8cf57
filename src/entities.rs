use vstd::prelude::*;

use crate::values::{Amount, Date};

verus! {

/// A legal process, identified by its kind of case.
pub struct Process {
    pub case_type: String,
}

/// A partner that brings clients.
pub struct Partner {
    pub name: String,
    pub information: Option<String>,
    pub phone: Option<String>,
    pub email: Option<String>,
}

/// A seller that closes orders.
pub struct Seller {
    pub name: String,
}

/// A client, which may belong to a partner (by the partner's key).
pub struct Client {
    pub name: String,
    pub contact: String,
    pub phone: String,
    pub phone2: Option<String>,
    pub email: String,
    pub partner_id: Option<i32>,
}

/// A kind of fee.
pub struct Fee {
    pub fee: String,
    pub fee_type: Option<String>,
}

/// A fee charged on an order, with its own value, settlement flag and note.
pub struct OrderFee {
    pub fee_id: i32,
    pub order_id: i32,
    pub open: bool,
    pub value: Amount,
    pub info: Option<String>,
}

/// An order: a client's engagement for a process, closed by a seller.
pub struct Order {
    pub client_id: i32,
    pub process_id: i32,
    pub seller_id: i32,
    pub open: bool,
    pub payout: Amount,
    pub fee: Amount,
    pub partner_fee: Option<Amount>,
}

/// A payment due on an order.
pub struct Payment {
    pub value: Amount,
    pub payment_date: Option<Date>,
    pub due_date: Date,
    pub payment_method: Option<String>,
    pub currency: Option<String>,
    pub postponed_payment: Option<bool>,
    pub order_id: i32,
    pub open: bool,
}

/// A date to which a payment was put off.
pub struct PostponedPayment {
    pub payment_id: i32,
    pub postponed_date: Date,
}

/// A fee that applies to a process.
pub struct ProcessFee {
    pub process_id: i32,
    pub fee_id: i32,
}

} // verus!
