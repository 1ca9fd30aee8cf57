use vstd::prelude::*;

use crate::entities::Process;
use crate::requests::CreateNewProcess;
use crate::store::{Store, TableName};
use crate::values::ModelError;
use crate::views::{process_view_ok, ProcessView};

verus! {

/// An edit of the process with identifier `pid`.
pub struct UpdateProcess {
    pub pid: u128,
    pub case_type: String,
}

/// `v` shows every process of the store, in order, with its linked fees.
pub open spec fn all_processes_shown(store: Store, v: Seq<ProcessView>) -> bool {
    &&& v.len() == store.processes@.len()
    &&& forall|i: int|
        0 <= i < v.len() ==> process_view_ok(
            #[trigger] v[i],
            store.processes@[i],
            store.processes_fees,
            store.fees,
        )
}

/// Creates a process; answers with all processes.
pub fn create_new(store: &mut Store, now: i64, req: CreateNewProcess) -> (r: Result<
    Vec<ProcessView>,
    ModelError,
>)
    requires
        old(store).wf(),
    ensures
        final(store).wf(),
        (r is Ok || r == Err::<Vec<ProcessView>, ModelError>(ModelError::DuplicatePid) || r == Err::<Vec<ProcessView>, ModelError>(ModelError::IdsExhausted)),
        old(store).processes.next_id == crate::table::KEY_LIMIT ==> r is Err,
        r is Err ==> *final(store) == *old(store),
        r matches Ok(v) ==> {
            let e = final(store).processes@.last();
            &&& final(store).same_except(*old(store), TableName::Processes)
            &&& !old(store).processes.has_pid(e.pid)
            &&& old(store).processes.inserted(
                final(store).processes,
                e.id,
                e.pid,
                now,
                Process { case_type: req.case_type },
            )
            &&& all_processes_shown(*final(store), v@)
        },
{
    match store.create_process(now, req) {
        Ok(_) => Ok(ProcessView::find_all(store)),
        Err(e) => Err(e),
    }
}

/// All processes with their linked fees.
pub fn get_all(store: &Store) -> (r: Vec<ProcessView>)
    requires
        store.wf(),
    ensures
        all_processes_shown(*store, r@),
{
    ProcessView::find_all(store)
}

/// Edits a process; answers with all processes.
pub fn update(store: &mut Store, now: i64, req: UpdateProcess) -> (r: Result<
    Vec<ProcessView>,
    ModelError,
>)
    requires
        old(store).wf(),
    ensures
        final(store).wf(),
        r is Err <==> !old(store).processes.has_pid(req.pid),
        r is Err ==> r == Err::<Vec<ProcessView>, ModelError>(ModelError::EntityNotFound) && *final(store) == *old(store),
        r matches Ok(v) ==> {
            &&& final(store).same_except(*old(store), TableName::Processes)
            &&& final(store).processes@ == old(store).processes.rewritten(
                old(store).processes.pos_of(req.pid),
                Process { case_type: req.case_type },
                now,
            )
            &&& all_processes_shown(*final(store), v@)
        },
{
    match store.update_process(req.pid, now, CreateNewProcess { case_type: req.case_type }) {
        Ok(_) => Ok(ProcessView::find_all(store)),
        Err(e) => Err(e),
    }
}

} // verus!
