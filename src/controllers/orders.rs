use vstd::prelude::*;

use crate::orders::GetOrderReturn;
use crate::store::Store;

verus! {

/// All orders with everything they refer to.
pub fn get_all(store: &Store) -> (r: Vec<GetOrderReturn>)
    requires
        store.wf(),
    ensures
        r@.len() == store.orders@.len(),
        forall|i: int| 0 <= i < r@.len() ==> store.order_view_ok(#[trigger] r@[i], store.orders@[i]),
{
    store.find_all_orders()
}

} // verus!
