use vstd::prelude::*;

use crate::orders::ClientViewResponse;
use crate::requests::CreateNewClient;
use crate::store::{Store, TableName};
use crate::values::ModelError;

verus! {

/// An edit of the client with identifier `pid`.
pub struct UpdateClient {
    pub pid: u128,
    pub name: String,
    pub contact: String,
    pub phone: String,
    pub phone2: Option<String>,
    pub email: String,
    pub partner_pid: Option<u128>,
}

/// The creation request that carries an edit's fields.
pub open spec fn fields_of(req: UpdateClient) -> CreateNewClient {
    CreateNewClient {
        name: req.name,
        contact: req.contact,
        phone: req.phone,
        phone2: req.phone2,
        email: req.email,
        partner_pid: req.partner_pid,
    }
}

/// Every client with its partner and orders.
pub fn get_all(store: &Store) -> (r: Vec<ClientViewResponse>)
    requires
        store.wf(),
    ensures
        r@.len() == store.clients@.len(),
        forall|i: int|
            0 <= i < r@.len() ==> store.client_view_ok(#[trigger] r@[i], store.clients@[i]),
{
    let mut out: Vec<ClientViewResponse> = Vec::new();
    let mut i: usize = 0;
    while i < store.clients.len()
        invariant
            store.wf(),
            i <= store.clients@.len(),
            out@.len() == i,
            forall|j: int|
                0 <= j < i ==> store.client_view_ok(#[trigger] out@[j], store.clients@[j]),
        decreases store.clients@.len() - i,
    {
        let c = store.clients.get(i);
        assert(store.clients@[i as int] == *c);
        out.push(ClientViewResponse::from_model(store, c));
        i = i + 1;
    }
    out
}

/// Creates a client; answers with its view.
pub fn create_new(store: &mut Store, now: i64, req: CreateNewClient) -> (r: Result<
    ClientViewResponse,
    ModelError,
>)
    requires
        old(store).wf(),
    ensures
        final(store).wf(),
        !old(store).partner_known(req.partner_pid) ==> r == Err::<ClientViewResponse, ModelError>(
            ModelError::EntityNotFound,
        ),
        old(store).partner_known(req.partner_pid) ==> (r is Ok || r == Err::<ClientViewResponse, ModelError>(ModelError::DuplicatePid) || r == Err::<ClientViewResponse, ModelError>(ModelError::IdsExhausted)),
        old(store).clients.next_id == crate::table::KEY_LIMIT ==> r is Err,
        r == Err::<ClientViewResponse, ModelError>(ModelError::EntityNotFound) ==> !old(store).partner_known(req.partner_pid),
        r is Err ==> *final(store) == *old(store),
        r matches Ok(v) ==> {
            let e = final(store).clients@.last();
            &&& final(store).same_except(*old(store), TableName::Clients)
            &&& !old(store).clients.has_pid(e.pid)
            &&& old(store).clients.inserted(
                final(store).clients,
                e.id,
                e.pid,
                now,
                old(store).client_of(req),
            )
            &&& final(store).client_view_ok(v, e)
        },
{
    match store.create_client(now, req) {
        Ok(_) => {
            let last = store.clients.len() - 1;
            let c = store.clients.get(last);
            assert(store.clients@[last as int] == *c);
            Ok(ClientViewResponse::from_model(store, c))
        },
        Err(e) => Err(e),
    }
}

/// Edits a client; answers with its view.
pub fn update(store: &mut Store, now: i64, req: UpdateClient) -> (r: Result<
    ClientViewResponse,
    ModelError,
>)
    requires
        old(store).wf(),
    ensures
        final(store).wf(),
        r is Err <==> !old(store).clients.has_pid(req.pid) || !old(store).partner_known(
            req.partner_pid,
        ),
        r is Err ==> r == Err::<ClientViewResponse, ModelError>(ModelError::EntityNotFound) && *final(store) == *old(store),
        r matches Ok(v) ==> {
            let i = old(store).clients.pos_of(req.pid);
            &&& final(store).same_except(*old(store), TableName::Clients)
            &&& final(store).clients@ == old(store).clients.rewritten(
                i,
                old(store).client_of(fields_of(req)),
                now,
            )
            &&& final(store).client_view_ok(v, final(store).clients@[i])
        },
{
    let pid = req.pid;
    let params = CreateNewClient {
        name: req.name,
        contact: req.contact,
        phone: req.phone,
        phone2: req.phone2,
        email: req.email,
        partner_pid: req.partner_pid,
    };
    let ghost before = *store;
    match store.update_client(pid, now, params) {
        Ok(_) => {
            proof {
                let k = before.clients.pos_of(pid);
                assert(store.clients@[k].pid == pid);
            }
            let i = match store.clients.index_of_pid(pid) {
                Some(i) => i,
                None => {
                    return Err(ModelError::EntityNotFound);
                },
            };
            let c = store.clients.get(i);
            assert(store.clients@[i as int] == *c);
            Ok(ClientViewResponse::from_model(store, c))
        },
        Err(e) => Err(e),
    }
}

} // verus!
