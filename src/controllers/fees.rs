use vstd::prelude::*;

use crate::entities::Fee;
use crate::requests::CreateNewFee;
use crate::store::{Store, TableName};
use crate::table::Entry;
use crate::values::ModelError;
use crate::views::{fee_view, FeeView};

verus! {

/// An edit of the fee with identifier `pid`.
pub struct UpdateFee {
    pub pid: u128,
    pub fee: String,
    pub fee_type: Option<String>,
}

/// Creates a fee; answers with all fees.
pub fn create_new(store: &mut Store, now: i64, req: CreateNewFee) -> (r: Result<Vec<FeeView>, ModelError>)
    requires
        old(store).wf(),
    ensures
        final(store).wf(),
        (r is Ok || r == Err::<Vec<FeeView>, ModelError>(ModelError::DuplicatePid) || r == Err::<Vec<FeeView>, ModelError>(ModelError::IdsExhausted)),
        old(store).fees.next_id == crate::table::KEY_LIMIT ==> r is Err,
        r is Err ==> *final(store) == *old(store),
        r matches Ok(v) ==> {
            let e = final(store).fees@.last();
            &&& final(store).same_except(*old(store), TableName::Fees)
            &&& !old(store).fees.has_pid(e.pid)
            &&& old(store).fees.inserted(
                final(store).fees,
                e.id,
                e.pid,
                now,
                Fee { fee: req.fee, fee_type: req.fee_type },
            )
            &&& v@ == final(store).fees@.map_values(|e: Entry<Fee>| fee_view(e))
        },
{
    match store.create_fee(now, req) {
        Ok(_) => Ok(FeeView::from_model(&store.fees)),
        Err(e) => Err(e),
    }
}

/// All fees.
pub fn get_all(store: &Store) -> (r: Vec<FeeView>)
    ensures
        r@ == store.fees@.map_values(|e: Entry<Fee>| fee_view(e)),
{
    FeeView::from_model(&store.fees)
}

/// Edits a fee; answers with all fees.
pub fn edit(store: &mut Store, now: i64, req: UpdateFee) -> (r: Result<Vec<FeeView>, ModelError>)
    requires
        old(store).wf(),
    ensures
        final(store).wf(),
        r is Err <==> !old(store).fees.has_pid(req.pid),
        r is Err ==> r == Err::<Vec<FeeView>, ModelError>(ModelError::EntityNotFound) && *final(store)
            == *old(store),
        r matches Ok(v) ==> {
            &&& final(store).same_except(*old(store), TableName::Fees)
            &&& final(store).fees@ == old(store).fees.rewritten(
                old(store).fees.pos_of(req.pid),
                Fee { fee: req.fee, fee_type: req.fee_type },
                now,
            )
            &&& v@ == final(store).fees@.map_values(|e: Entry<Fee>| fee_view(e))
        },
{
    let params = CreateNewFee { fee: req.fee, fee_type: req.fee_type };
    match store.update_fee(req.pid, now, params) {
        Ok(_) => Ok(FeeView::from_model(&store.fees)),
        Err(e) => Err(e),
    }
}

} // verus!
