use vstd::prelude::*;

use crate::entities::Seller;
use crate::requests::CreateNewSeller;
use crate::store::{Store, TableName};
use crate::table::Entry;
use crate::values::ModelError;
use crate::views::{seller_view, SellerView};

verus! {

/// An edit of the seller with identifier `pid`.
pub struct EditSellet {
    pub pid: u128,
    pub name: String,
}

/// Creates a seller; answers with all sellers.
pub fn create_new(store: &mut Store, now: i64, req: CreateNewSeller) -> (r: Result<Vec<SellerView>, ModelError>)
    requires
        old(store).wf(),
    ensures
        final(store).wf(),
        (r is Ok || r == Err::<Vec<SellerView>, ModelError>(ModelError::DuplicatePid) || r == Err::<Vec<SellerView>, ModelError>(ModelError::IdsExhausted)),
        old(store).sellers.next_id == crate::table::KEY_LIMIT ==> r is Err,
        r is Err ==> *final(store) == *old(store),
        r matches Ok(v) ==> {
            let e = final(store).sellers@.last();
            &&& final(store).same_except(*old(store), TableName::Sellers)
            &&& !old(store).sellers.has_pid(e.pid)
            &&& old(store).sellers.inserted(
                final(store).sellers,
                e.id,
                e.pid,
                now,
                Seller { name: req.name },
            )
            &&& v@ == final(store).sellers@.map_values(|e: Entry<Seller>| seller_view(e))
        },
{
    match store.create_seller(now, req) {
        Ok(_) => Ok(SellerView::from_model(&store.sellers)),
        Err(e) => Err(e),
    }
}

/// All sellers.
pub fn get_all(store: &Store) -> (r: Vec<SellerView>)
    ensures
        r@ == store.sellers@.map_values(|e: Entry<Seller>| seller_view(e)),
{
    SellerView::from_model(&store.sellers)
}

/// Edits a seller; answers with all sellers.
pub fn edit(store: &mut Store, now: i64, req: EditSellet) -> (r: Result<Vec<SellerView>, ModelError>)
    requires
        old(store).wf(),
    ensures
        final(store).wf(),
        r is Err <==> !old(store).sellers.has_pid(req.pid),
        r is Err ==> r == Err::<Vec<SellerView>, ModelError>(ModelError::EntityNotFound) && *final(store)
            == *old(store),
        r matches Ok(v) ==> {
            &&& final(store).same_except(*old(store), TableName::Sellers)
            &&& final(store).sellers@ == old(store).sellers.rewritten(
                old(store).sellers.pos_of(req.pid),
                Seller { name: req.name },
                now,
            )
            &&& v@ == final(store).sellers@.map_values(|e: Entry<Seller>| seller_view(e))
        },
{
    let params = CreateNewSeller { name: req.name };
    match store.update_seller(req.pid, now, params) {
        Ok(_) => Ok(SellerView::from_model(&store.sellers)),
        Err(e) => Err(e),
    }
}

} // verus!
