use vstd::prelude::*;

use crate::entities::Partner;
use crate::requests::CreateNewPartner;
use crate::store::{Store, TableName};
use crate::table::Entry;
use crate::values::ModelError;
use crate::views::{partner_view, PartnerView};

verus! {

/// An edit of the partner with identifier `pid`.
pub struct EditPartner {
    pub pid: u128,
    pub name: String,
    pub information: Option<String>,
    pub phone: Option<String>,
    pub email: Option<String>,
}

/// Creates a partner; answers with all partners.
pub fn create_new(store: &mut Store, now: i64, req: CreateNewPartner) -> (r: Result<Vec<PartnerView>, ModelError>)
    requires
        old(store).wf(),
    ensures
        final(store).wf(),
        (r is Ok || r == Err::<Vec<PartnerView>, ModelError>(ModelError::DuplicatePid) || r == Err::<Vec<PartnerView>, ModelError>(ModelError::IdsExhausted)),
        old(store).partners.next_id == crate::table::KEY_LIMIT ==> r is Err,
        r is Err ==> *final(store) == *old(store),
        r matches Ok(v) ==> {
            let e = final(store).partners@.last();
            &&& final(store).same_except(*old(store), TableName::Partners)
            &&& !old(store).partners.has_pid(e.pid)
            &&& old(store).partners.inserted(
                final(store).partners,
                e.id,
                e.pid,
                now,
                Partner { name: req.name, information: req.information, phone: req.phone, email: req.email },
            )
            &&& v@ == final(store).partners@.map_values(|e: Entry<Partner>| partner_view(e))
        },
{
    match store.create_partner(now, req) {
        Ok(_) => Ok(PartnerView::from_model(&store.partners)),
        Err(e) => Err(e),
    }
}

/// All partners.
pub fn get_all(store: &Store) -> (r: Vec<PartnerView>)
    ensures
        r@ == store.partners@.map_values(|e: Entry<Partner>| partner_view(e)),
{
    PartnerView::from_model(&store.partners)
}

/// Edits a partner; answers with all partners.
pub fn edit(store: &mut Store, now: i64, req: EditPartner) -> (r: Result<Vec<PartnerView>, ModelError>)
    requires
        old(store).wf(),
    ensures
        final(store).wf(),
        r is Err <==> !old(store).partners.has_pid(req.pid),
        r is Err ==> r == Err::<Vec<PartnerView>, ModelError>(ModelError::EntityNotFound) && *final(store)
            == *old(store),
        r matches Ok(v) ==> {
            &&& final(store).same_except(*old(store), TableName::Partners)
            &&& final(store).partners@ == old(store).partners.rewritten(
                old(store).partners.pos_of(req.pid),
                Partner { name: req.name, information: req.information, phone: req.phone, email: req.email },
                now,
            )
            &&& v@ == final(store).partners@.map_values(|e: Entry<Partner>| partner_view(e))
        },
{
    let params = CreateNewPartner { name: req.name, information: req.information, phone: req.phone, email: req.email };
    match store.update_partner(req.pid, now, params) {
        Ok(_) => Ok(PartnerView::from_model(&store.partners)),
        Err(e) => Err(e),
    }
}

} // verus!
