//! A requested or reported mode of one function group.

use crate::machine_manifest::MACHINE_FG;
use vstd::prelude::*;

verus! {

/// The name of a function group.
pub type FunctionGroup = String;

/// A function group together with one of its modes.
#[derive(Debug)]
pub struct FunctionGroupState {
    pub function_group: FunctionGroup,
    pub function_group_state: String,
}

impl View for FunctionGroupState {
    type V = (Seq<char>, Seq<char>);

    open spec fn view(&self) -> (Seq<char>, Seq<char>) {
        (self.function_group@, self.function_group_state@)
    }
}

impl Clone for FunctionGroupState {
    fn clone(&self) -> (r: Self)
        ensures
            r@ == self@,
    {
        FunctionGroupState {
            function_group: self.function_group.clone(),
            function_group_state: self.function_group_state.clone(),
        }
    }
}

impl PartialEq for FunctionGroupState {
    fn eq(&self, other: &FunctionGroupState) -> (r: bool) {
        self.function_group == other.function_group && self.function_group_state == other.function_group_state
    }
}

impl vstd::std_specs::cmp::PartialEqSpecImpl for FunctionGroupState {
    open spec fn obeys_eq_spec() -> bool {
        true
    }

    open spec fn eq_spec(&self, other: &FunctionGroupState) -> bool {
        self@ == other@
    }
}

impl Eq for FunctionGroupState {}

impl FunctionGroupState {
    pub fn new(function_group: FunctionGroup, function_group_state: String) -> (r: Self)
        ensures
            r@ == (function_group@, function_group_state@),
    {
        Self { function_group, function_group_state }
    }
}

/// Mode `state` of the reserved group `MachineFG`.
pub fn get_machine_fg_state(state: &str) -> (r: FunctionGroupState)
    ensures
        r@ == (MACHINE_FG@, state@),
{
    FunctionGroupState::new(MACHINE_FG.to_owned(), state.to_owned())
}

} // verus!
