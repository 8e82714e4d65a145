//! Commands: decide, then save, as one step that cannot lose the decided events.

use crate::conflict::ConflictPredicate;
use vstd::prelude::*;

verus! {

/// Why a command was not executed.
#[derive(Debug)]
pub enum ExecuteError<DecideErr, StoreErr> {
    /// The aggregate rejected the command. Nothing was persisted.
    Decide(DecideErr),
    /// The save failed.
    Store(StoreErr),
}

impl<DecideErr, StoreErr: ConflictPredicate> ExecuteError<DecideErr, StoreErr> {
    /// Whether the save failed on a conflict. A rejection never is one.
    pub fn is_conflict(&self) -> (r: bool)
        ensures
            r == (self matches ExecuteError::Store(e) && e.conflicting()),
    {
        match self {
            ExecuteError::Store(e) => e.is_conflict(),
            ExecuteError::Decide(_) => false,
        }
    }
}

/// What a command that was not rejected came to.
#[derive(Debug)]
#[must_use]
pub enum Execution<P, Events> {
    /// The command decided nothing, so nothing was appended.
    Ignored,
    /// The decided events are durable.
    Executed {
        /// The position of the last decided event.
        position: P,
        /// The decided events.
        events: Events,
    },
}

/// What is left to do once the aggregate has decided.
#[derive(Debug)]
pub enum Decision<Events> {
    /// The command decided nothing: do not touch the store.
    Ignore,
    /// Save these events.
    Save(Events),
}

/// Takes the aggregate's verdict on a command.
pub fn decide<Events, DecideErr, StoreErr>(handled: Result<Option<Events>, DecideErr>) -> (r: Result<
    Decision<Events>,
    ExecuteError<DecideErr, StoreErr>,
>)
    ensures
        match handled {
            Err(e) => r == Err::<Decision<Events>, ExecuteError<DecideErr, StoreErr>>(
                ExecuteError::Decide(e),
            ),
            Ok(None) => r == Ok::<Decision<Events>, ExecuteError<DecideErr, StoreErr>>(
                Decision::Ignore,
            ),
            Ok(Some(events)) => r == Ok::<Decision<Events>, ExecuteError<DecideErr, StoreErr>>(
                Decision::Save(events),
            ),
        },
{
    match handled {
        Err(e) => Err(ExecuteError::Decide(e)),
        Ok(None) => Ok(Decision::Ignore),
        Ok(Some(events)) => Ok(Decision::Save(events)),
    }
}

/// Takes the repository's answer to a save.
pub fn executed<P, Events, DecideErr, StoreErr>(
    events: Events,
    saved: Result<P, StoreErr>,
) -> (r: Result<Execution<P, Events>, ExecuteError<DecideErr, StoreErr>>)
    ensures
        match saved {
            Ok(position) => r == Ok::<Execution<P, Events>, ExecuteError<DecideErr, StoreErr>>(
                Execution::Executed { position, events },
            ),
            Err(e) => r == Err::<Execution<P, Events>, ExecuteError<DecideErr, StoreErr>>(
                ExecuteError::Store(e),
            ),
        },
{
    match saved {
        Ok(position) => Ok(Execution::Executed { position, events }),
        Err(e) => Err(ExecuteError::Store(e)),
    }
}

/// Executes a command whose verdict is `handled`, saving through `save`.
///
/// `save` runs exactly when there is something to save. A failed save is not retried.
pub fn execute<P, Events, DecideErr, StoreErr, F: FnOnce(&Events) -> Result<P, StoreErr>>(
    handled: Result<Option<Events>, DecideErr>,
    save: F,
) -> (r: Result<Execution<P, Events>, ExecuteError<DecideErr, StoreErr>>)
    requires
        handled matches Ok(Some(events)) ==> call_requires(save, (&events,)),
    ensures
        match r {
            Err(ExecuteError::Decide(e)) => handled == Err::<Option<Events>, DecideErr>(e),
            Ok(Execution::Ignored) => handled == Ok::<Option<Events>, DecideErr>(None),
            Ok(Execution::Executed { position, events }) => {
                &&& handled == Ok::<Option<Events>, DecideErr>(Some(events))
                &&& call_ensures(save, (&events,), Ok::<P, StoreErr>(position))
            },
            Err(ExecuteError::Store(e)) => {
                &&& handled matches Ok(Some(events)) && call_ensures(
                    save,
                    (&events,),
                    Err::<P, StoreErr>(e),
                )
            },
        },
{
    match decide(handled) {
        Err(e) => Err(e),
        Ok(Decision::Ignore) => Ok(Execution::Ignored),
        Ok(Decision::Save(events)) => {
            let saved: Result<P, StoreErr> = save(&events);
            executed(events, saved)
        },
    }
}

} // verus!
