//! Laws of commands: what is saved, and what is told.

use crate::conflict::ConflictPredicate;
use crate::error::StoreError;
use crate::execute::{decide, execute, executed, Decision, ExecuteError, Execution};
use vstd::prelude::*;

verus! {

/// A command that is rejected, or that decides nothing, saves nothing: it is told apart without the
/// save having any part in it. One that decides events tells whether exactly these were saved, and
/// where, or why they were not.
pub proof fn command_saves_what_it_decided<
    P,
    Events,
    DecideErr,
    StoreErr,
    F: FnOnce(&Events) -> Result<P, StoreErr>,
>(
    handled: Result<Option<Events>, DecideErr>,
    save: F,
    r: Result<Execution<P, Events>, ExecuteError<DecideErr, StoreErr>>,
)
    requires
        call_ensures(execute::<P, Events, DecideErr, StoreErr, F>, (handled, save), r),
    ensures
        handled matches Err(e) ==> (r matches Err(ExecuteError::Decide(given)) && given == e),
        handled matches Ok(None) ==> r matches Ok(Execution::Ignored),
        handled matches Ok(Some(events)) ==> match r {
            Ok(Execution::Executed { position, events: told }) => {
                &&& told == events
                &&& call_ensures(save, (&events,), Ok::<P, StoreErr>(position))
            },
            Err(ExecuteError::Store(e)) => call_ensures(
                save,
                (&events,),
                Err::<P, StoreErr>(e),
            ),
            _ => false,
        },
{
}

/// The two steps of a command, one after the other, tell what the command as a whole tells: with a
/// save that answers `saved`, the decided events are executed at its position or failed with its
/// error.
pub proof fn steps_make_up_the_command<P, Events, DecideErr, StoreErr>(
    handled: Result<Option<Events>, DecideErr>,
    decision: Result<Decision<Events>, ExecuteError<DecideErr, StoreErr>>,
    events: Events,
    saved: Result<P, StoreErr>,
    r: Result<Execution<P, Events>, ExecuteError<DecideErr, StoreErr>>,
)
    requires
        call_ensures(decide::<Events, DecideErr, StoreErr>, (handled,), decision),
        call_ensures(executed::<P, Events, DecideErr, StoreErr>, (events, saved), r),
    ensures
        handled is Err <==> decision is Err,
        handled matches Err(e) ==> (decision matches Err(ExecuteError::Decide(given)) && given
            == e),
        decision matches Ok(Decision::Ignore) <==> handled matches Ok(None),
        decision matches Ok(Decision::Save(kept)) ==> handled == Ok::<Option<Events>, DecideErr>(
            Some(kept),
        ),
        saved matches Ok(at) ==> (r matches Ok(Execution::Executed { position, events: told })
            && position == at && told == events),
        saved matches Err(e) ==> (r matches Err(ExecuteError::Store(given)) && given == e),
{
}

/// Only another writer makes a conflict. A rejection is none, whatever its error, and no other
/// failure of a store is.
pub proof fn only_a_faster_writer_is_a_conflict<DecideErr, A, EncErr, DecErr>(
    failed: &ExecuteError<DecideErr, StoreError<A, EncErr, DecErr>>,
    r: bool,
    store: &StoreError<A, EncErr, DecErr>,
    by_store: bool,
    by_predicate: bool,
)
    requires
        call_ensures(
            ExecuteError::<DecideErr, StoreError<A, EncErr, DecErr>>::is_conflict,
            (failed,),
            r,
        ),
        call_ensures(StoreError::<A, EncErr, DecErr>::is_conflict, (store,), by_store),
        call_ensures(
            <StoreError<A, EncErr, DecErr> as ConflictPredicate>::is_conflict,
            (store,),
            by_predicate,
        ),
    ensures
        r <==> (failed matches ExecuteError::Store(StoreError::Conflict { .. })),
        by_store <==> (store matches StoreError::Conflict { .. }),
        by_predicate == by_store,
{
}

} // verus!
