use vstd::prelude::*;

use crate::values::{Amount, Date};

verus! {

/// Fields of a new or edited process.
pub struct CreateNewProcess {
    pub case_type: String,
}

/// Fields of a new or edited partner.
pub struct CreateNewPartner {
    pub name: String,
    pub information: Option<String>,
    pub phone: Option<String>,
    pub email: Option<String>,
}

/// Fields of a new or edited seller.
pub struct CreateNewSeller {
    pub name: String,
}

/// Fields of a new or edited client; the partner is named by its identifier.
pub struct CreateNewClient {
    pub name: String,
    pub contact: String,
    pub phone: String,
    pub phone2: Option<String>,
    pub email: String,
    pub partner_pid: Option<u128>,
}

/// Fields of a new or edited fee.
pub struct CreateNewFee {
    pub fee: String,
    pub fee_type: Option<String>,
}

/// Fields of a new or edited fee of an order, naming fee and order by key.
pub struct CreateNewOrderFee {
    pub fee_id: i32,
    pub order_id: i32,
    pub open: bool,
    pub value: Amount,
    pub info: Option<String>,
}

/// Fields of a new or edited payment.
pub struct CreateNewPayment {
    pub value: Amount,
    pub payment_date: Option<Date>,
    pub due_date: Date,
    pub payment_method: Option<String>,
    pub currency: Option<String>,
    pub postponed_payment: Option<bool>,
    pub open: bool,
}

/// Fields of a new or edited postponed date, naming its payment by key.
pub struct CreateNewPostponedPayment {
    pub payment_id: i32,
    pub postponed_date: Date,
}

/// A process and a fee to link, named by their identifiers.
pub struct CreateNewProcessFee {
    pub process_pid: u128,
    pub fee_pid: u128,
}

} // verus!
