use vstd::prelude::*;

use crate::controllers::processes::all_processes_shown;
use crate::requests::CreateNewProcessFee;
use crate::store::{Store, TableName};
use crate::values::ModelError;
use crate::views::ProcessView;

verus! {

/// A new target for the process-fee link with identifier `process_fee_pid`.
pub struct UpdateProcessFee {
    pub process_fee_pid: u128,
    pub process_pid: u128,
    pub fee_pid: u128,
}

/// The process-fee link to delete.
pub struct DeleteProcessFee {
    pub process_fee_pid: u128,
}

/// Links a process and a fee; answers with all processes.
pub fn create_new(store: &mut Store, now: i64, req: CreateNewProcessFee) -> (r: Result<
    Vec<ProcessView>,
    ModelError,
>)
    requires
        old(store).wf(),
    ensures
        final(store).wf(),
        !old(store).process_fee_known(req) ==> r == Err::<Vec<ProcessView>, ModelError>(
            ModelError::EntityNotFound,
        ),
        old(store).process_fee_known(req) ==> (r is Ok || r == Err::<Vec<ProcessView>, ModelError>(ModelError::DuplicatePid) || r == Err::<Vec<ProcessView>, ModelError>(ModelError::IdsExhausted)),
        old(store).processes_fees.next_id == crate::table::KEY_LIMIT ==> r is Err,
        r == Err::<Vec<ProcessView>, ModelError>(ModelError::EntityNotFound) ==> !old(store).process_fee_known(req),
        r is Err ==> *final(store) == *old(store),
        r matches Ok(v) ==> {
            let e = final(store).processes_fees@.last();
            &&& final(store).same_except(*old(store), TableName::ProcessesFees)
            &&& !old(store).processes_fees.has_pid(e.pid)
            &&& old(store).processes_fees.inserted(
                final(store).processes_fees,
                e.id,
                e.pid,
                now,
                old(store).process_fee_of(req),
            )
            &&& all_processes_shown(*final(store), v@)
        },
{
    match store.create_process_fee(now, req) {
        Ok(_) => Ok(ProcessView::find_all(store)),
        Err(e) => Err(e),
    }
}

/// Points a process-fee link elsewhere; answers with all processes.
pub fn update(store: &mut Store, now: i64, req: UpdateProcessFee) -> (r: Result<
    Vec<ProcessView>,
    ModelError,
>)
    requires
        old(store).wf(),
    ensures
        final(store).wf(),
        r is Err <==> !old(store).processes_fees.has_pid(req.process_fee_pid) || !old(store).process_fee_known(CreateNewProcessFee { process_pid: req.process_pid, fee_pid: req.fee_pid }),
        r is Err ==> *final(store) == *old(store),
        r matches Ok(v) ==> {
            &&& final(store).same_except(*old(store), TableName::ProcessesFees)
            &&& final(store).processes_fees@ == old(store).processes_fees.rewritten(
                old(store).processes_fees.pos_of(req.process_fee_pid),
                old(store).process_fee_of(
                    CreateNewProcessFee { process_pid: req.process_pid, fee_pid: req.fee_pid },
                ),
                now,
            )
            &&& all_processes_shown(*final(store), v@)
        },
{
    let params = CreateNewProcessFee { process_pid: req.process_pid, fee_pid: req.fee_pid };
    match store.update_process_fee(req.process_fee_pid, now, params) {
        Ok(_) => Ok(ProcessView::find_all(store)),
        Err(e) => Err(e),
    }
}

/// Deletes a process-fee link; answers with all processes.
pub fn del(store: &mut Store, req: DeleteProcessFee) -> (r: Result<Vec<ProcessView>, ModelError>)
    requires
        old(store).wf(),
    ensures
        final(store).wf(),
        r is Err <==> !old(store).processes_fees.has_pid(req.process_fee_pid),
        r is Err ==> *final(store) == *old(store),
        r matches Ok(v) ==> {
            &&& final(store).purged(
                *old(store),
                TableName::ProcessesFees,
                old(store).processes_fees.key_of(req.process_fee_pid),
            )
            &&& all_processes_shown(*final(store), v@)
        },
{
    match store.delete(TableName::ProcessesFees, req.process_fee_pid) {
        Ok(()) => Ok(ProcessView::find_all(store)),
        Err(e) => Err(e),
    }
}

} // verus!
