//! The Execution-Management side of the protocol: the current mode of each
//! function group, the outcome of the initial transition, and the answers to
//! State Management.

use crate::execution_manifest::ExecutionManifest;
use crate::function_group::FunctionGroupState;
use crate::group::{table_bucket, FunctionGroupHashMap};
use crate::machine_manifest::MachineManifest;
use crate::protocol::{InitialStateError, SetStateError, SmClientCommand, SmResponse};
use crate::string_map::{text_pairs, value_of, StringMap};
use vstd::prelude::*;

verus! {

/// A transition that has started and not yet completed.
#[derive(Debug)]
pub struct InFlight {
    pub ticket: u64,
    pub target: FunctionGroupState,
}

/// The grouping table, the mode each function group is in, whether the
/// initial transition succeeded (once it is known), and the one transition
/// that may be in flight.
pub struct StateRegistry {
    pub table: FunctionGroupHashMap,
    pub current: StringMap<String>,
    pub initial_state: Option<bool>,
    pub in_flight: Option<InFlight>,
    pub next_ticket: u64,
}

/// The mode group `g` is in, by `current`.
pub open spec fn current_mode(current: StringMap<String>, g: Seq<char>) -> Option<Seq<char>> {
    match value_of(current@, g) {
        Some(m) => Some(m@),
        None => None,
    }
}

/// The answer to a query of the initial state.
pub open spec fn initial_state_reply(initial_state: Option<bool>) -> Result<(), InitialStateError> {
    if initial_state == Some(true) {
        Ok(())
    } else {
        Err(InitialStateError::FailedInitializeInitialState)
    }
}

/// A transition of `before` to mode `target.1` of group `target.0`, run to
/// completion, gives `r` and leaves `after`: it succeeds exactly when the
/// table holds that mode, and then records it and leaves nothing in flight;
/// a failed one changes nothing.
pub open spec fn transition(
    before: StateRegistry,
    target: (Seq<char>, Seq<char>),
    after: StateRegistry,
    r: Result<(), SetStateError>,
) -> bool {
    &&& after.table == before.table
    &&& after.initial_state == before.initial_state
    &&& if table_bucket(before.table@, target.0, target.1) is Some {
        &&& r is Ok
        &&& after.in_flight is None
        &&& current_mode(after.current, target.0) == Some(target.1)
        &&& forall|g: Seq<char>| g != target.0 ==> current_mode(after.current, g) == current_mode(before.current, g)
    } else {
        &&& r == Err::<(), SetStateError>(SetStateError::MetamodelError)
        &&& after == before
    }
}

/// Handling `command` on `before` answers `r` and leaves `after`.
pub open spec fn handled(before: StateRegistry, command: SmClientCommand, after: StateRegistry, r: SmResponse) -> bool {
    match command {
        SmClientCommand::GetInitialState => {
            &&& after == before
            &&& r == SmResponse::GetInitialState(initial_state_reply(before.initial_state))
        },
        SmClientCommand::SetState(target) => exists|x: Result<(), SetStateError>|
            r == SmResponse::SetState(x) && transition(before, target@, after, x),
    }
}

impl StateRegistry {
    /// A registry over `table` with every function group in its initial mode
    /// and the initial transition not yet known.
    pub fn new(machine: &MachineManifest, table: FunctionGroupHashMap) -> (r: Self)
        ensures
            r.table == table,
            r.initial_state is None,
            text_pairs(r.current@) == machine.function_group_set@.map_values(
                |e: (Seq<char>, crate::machine_manifest::FunctionGroupMode)| (e.0, e.1.initial_mode@),
            ),
    {
        let ghost groups = machine.function_group_set@;
        let mut current: StringMap<String> = StringMap::new();
        let n = machine.function_group_set.len();
        let mut i: usize = 0;
        while i < n
            invariant
                groups == machine.function_group_set@,
                n == groups.len(),
                crate::string_map::keys_unique(groups),
                i <= n,
                text_pairs(current@) == groups.take(i as int).map_values(
                    |e: (Seq<char>, crate::machine_manifest::FunctionGroupMode)| (e.0, e.1.initial_mode@),
                ),
            decreases n - i,
        {
            let name = machine.function_group_set.key_at(i);
            let fg = machine.function_group_set.value_at(i);
            let ghost before = current@;
            assert(!crate::string_map::has_key(before, name@)) by {
                if crate::string_map::has_key(before, name@) {
                    let j = choose|j: int| 0 <= j < before.len() && before[j].0 == name@;
                    assert(text_pairs(before).len() == before.len());
                    assert(text_pairs(before)[j].0 == before[j].0);
                    assert(groups.take(i as int)[j] == groups[j]);
                    assert(text_pairs(before)[j].0 == groups[j].0);
                    assert(name@ == groups[i as int].0);
                    assert(groups[j].0 != groups[i as int].0);
                }
            }
            let mode = fg.initial_mode.clone();
            current.insert(name.clone(), mode);
            assert(current@ == before.push((name@, mode)));
            assert(text_pairs(current@) =~= text_pairs(before).push((name@, mode@)));
            assert(groups.take(i + 1) =~= groups.take(i as int).push(groups[i as int]));
            assert(text_pairs(current@) =~= groups.take(i + 1).map_values(
                |e: (Seq<char>, crate::machine_manifest::FunctionGroupMode)| (e.0, e.1.initial_mode@),
            ));
            i = i + 1;
        }
        assert(groups.take(n as int) =~= groups);
        StateRegistry { table, current, initial_state: None, in_flight: None, next_ticket: 0 }
    }

    /// Starts a transition to `target` when the table holds it, cancelling the
    /// transition in flight, whose ticket is returned beside the new one.
    /// Otherwise reports `MetamodelError` and changes nothing.
    pub fn begin_transition(&mut self, target: &FunctionGroupState) -> (r: Result<(u64, Option<u64>), SetStateError>)
        ensures
            table_bucket(old(self).table@, target@.0, target@.1) is None ==> r == Err::<(u64, Option<u64>), SetStateError>(SetStateError::MetamodelError)
                && *final(self) == *old(self),
            table_bucket(old(self).table@, target@.0, target@.1) is Some ==> {
                &&& r matches Ok((ticket, cancelled))
                &&& ticket == old(self).next_ticket
                &&& cancelled == match old(self).in_flight {
                    Some(f) => Some(f.ticket),
                    None => None::<u64>,
                }
                &&& final(self).in_flight matches Some(f) && f.ticket == ticket && f.target@ == target@
                &&& final(self).next_ticket == old(self).next_ticket.wrapping_add(1)
                &&& final(self).table == old(self).table
                &&& final(self).current == old(self).current
                &&& final(self).initial_state == old(self).initial_state
            },
    {
        if self.applications(target.function_group.as_str(), target.function_group_state.as_str()).is_none() {
            return Err(SetStateError::MetamodelError);
        }
        let ticket = self.next_ticket;
        let cancelled = match &self.in_flight {
            Some(f) => Some(f.ticket),
            None => None,
        };
        self.in_flight = Some(InFlight { ticket, target: target.clone() });
        self.next_ticket = ticket.wrapping_add(1);
        Ok((ticket, cancelled))
    }

    /// Completes transition `ticket`. When it is the one in flight, it leaves
    /// flight and, if it `succeeded`, its mode is recorded; otherwise `Failed`
    /// is reported. A transition that was cancelled gets `Canceled`, and
    /// nothing changes.
    pub fn complete_transition(&mut self, ticket: u64, succeeded: bool) -> (r: Result<(), SetStateError>)
        ensures
            final(self).table == old(self).table,
            final(self).initial_state == old(self).initial_state,
            final(self).next_ticket == old(self).next_ticket,
            match old(self).in_flight {
                Some(f) if f.ticket == ticket => {
                    &&& final(self).in_flight is None
                    &&& succeeded ==> r is Ok && current_mode(final(self).current, f.target@.0) == Some(f.target@.1)
                        && forall|g: Seq<char>| g != f.target@.0 ==> current_mode(final(self).current, g) == current_mode(old(self).current, g)
                    &&& !succeeded ==> r == Err::<(), SetStateError>(SetStateError::Failed) && final(self).current == old(self).current
                },
                _ => r == Err::<(), SetStateError>(SetStateError::Canceled) && *final(self) == *old(self),
            },
    {
        let matches = match &self.in_flight {
            Some(f) => f.ticket == ticket,
            None => false,
        };
        if !matches {
            return Err(SetStateError::Canceled);
        }
        let finished = self.in_flight.take();
        match finished {
            Some(f) => {
                if succeeded {
                    self.current.insert(f.target.function_group, f.target.function_group_state);
                    Ok(())
                } else {
                    Err(SetStateError::Failed)
                }
            },
            None => Err(SetStateError::Canceled),
        }
    }

    /// The ordered applications for mode `mode` of group `group`, if the table holds it.
    pub fn applications(&self, group: &str, mode: &str) -> (r: Option<&Vec<ExecutionManifest>>)
        ensures
            match r {
                Some(v) => table_bucket(self.table@, group@, mode@) == Some(crate::execution_manifest::manifest_views(v@)),
                None => table_bucket(self.table@, group@, mode@) is None,
            },
    {
        match self.table.get(group) {
            Some(modes) => modes.get(mode),
            None => None,
        }
    }
}

/// Records the outcome of the initial transition; it is recorded once.
pub fn set_intial_state(registry: &mut StateRegistry, value: bool)
    requires
        old(registry).initial_state is None,
    ensures
        final(registry).initial_state == Some(value),
        final(registry).table == old(registry).table,
        final(registry).current == old(registry).current,
{
    registry.initial_state = Some(value);
}

/// The recorded outcome of the initial transition.
pub fn get_intial_state(registry: &StateRegistry) -> (r: bool)
    requires
        registry.initial_state is Some,
    ensures
        registry.initial_state == Some(r),
{
    match registry.initial_state {
        Some(value) => value,
        None => false,
    }
}

/// Moves group `fg_state.function_group` to mode `fg_state.function_group_state`
/// when the table holds that mode; otherwise reports `MetamodelError` and
/// changes nothing.
pub fn set_state(registry: &mut StateRegistry, fg_state: &FunctionGroupState) -> (r: Result<(), SetStateError>)
    ensures
        transition(*old(registry), fg_state@, *final(registry), r),
{
    match registry.begin_transition(fg_state) {
        Ok((ticket, _cancelled)) => registry.complete_transition(ticket, true),
        Err(e) => Err(e),
    }
}

/// Answers one request of State Management.
pub fn handle_command(registry: &mut StateRegistry, command: &SmClientCommand) -> (r: SmResponse)
    ensures
        handled(*old(registry), *command, *final(registry), r),
{
    match command {
        SmClientCommand::GetInitialState => {
            let reply = match registry.initial_state {
                Some(true) => Ok(()),
                _ => Err(InitialStateError::FailedInitializeInitialState),
            };
            SmResponse::GetInitialState(reply)
        },
        SmClientCommand::SetState(target) => {
            let x = set_state(registry, target);
            SmResponse::SetState(x)
        },
    }
}

/// Asking for the initial state changes nothing: two queries in a row get
/// the same answer and leave the registry as it was, and after a successful
/// initial transition both answers are `Ok`.
pub proof fn lemma_initial_state_query_repeats(
    r0: StateRegistry,
    r1: StateRegistry,
    r2: StateRegistry,
    first: SmResponse,
    second: SmResponse,
)
    requires
        handled(r0, SmClientCommand::GetInitialState, r1, first),
        handled(r1, SmClientCommand::GetInitialState, r2, second),
    ensures
        r2 == r0,
        second == first,
        r0.initial_state == Some(true) ==> first == SmResponse::GetInitialState(Ok(())),
{
}

} // verus!
