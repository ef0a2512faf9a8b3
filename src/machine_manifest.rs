//! The machine manifest: process modes and the function groups with their modes.

use crate::string_map::{has_key, StringMap};
use crate::text::{
    concat3, concat5, contains_text, copy_texts, join_comma, join_with_comma, same_text, same_text_set, text_set,
    texts,
};
use vstd::prelude::*;

verus! {

pub const RUNNING: &'static str = "Running";

pub const TERMINATED: &'static str = "Terminated";

pub const MACHINE_FG: &'static str = "MachineFG";

pub const STARTUP: &'static str = "Startup";

pub const SHUTDOWN: &'static str = "Shutdown";

pub const RESTART: &'static str = "Restart";

pub const OFF: &'static str = "Off";

/// The modes of one function group and the mode it starts in.
#[derive(Debug)]
pub struct FunctionGroupMode {
    pub initial_mode: String,
    pub mode: Vec<String>,
}

impl Clone for FunctionGroupMode {
    fn clone(&self) -> (r: Self)
        ensures
            r.initial_mode == self.initial_mode,
            r.mode@ == self.mode@,
    {
        FunctionGroupMode { initial_mode: self.initial_mode.clone(), mode: copy_texts(&self.mode) }
    }
}

/// Machine-wide configuration.
#[derive(Debug)]
pub struct MachineManifest {
    pub default_application_timeout: Option<u32>,
    pub environment_variable: StringMap<String>,
    pub process_mode: Vec<String>,
    pub function_group_set: StringMap<FunctionGroupMode>,
}

/// Why a machine manifest is rejected.
#[derive(Debug)]
pub enum MachineManifestError {
    EmptyProcessMode,
    InvalidProcessMode(String),
    EmptyMachineFG,
    InvalidFGInitialMode(String, String),
    InvalidFGMode(String, String),
}

impl MachineManifestError {
    /// The message that describes the error.
    pub fn to_string(&self) -> (r: String)
        ensures
            r@ == match self {
                MachineManifestError::EmptyProcessMode => "Empty process-mode"@,
                MachineManifestError::InvalidProcessMode(m) => "Invalid Process mode("@ + m@ + ")"@,
                MachineManifestError::EmptyMachineFG => "Empty MachineFG"@,
                MachineManifestError::InvalidFGInitialMode(m, g) => "Invalid initial mode("@ + m@ + ") for "@ + g@ + ""@,
                MachineManifestError::InvalidFGMode(m, g) => "Invalid mode("@ + m@ + ") for "@ + g@ + ""@,
            },
    {
        match self {
            MachineManifestError::EmptyProcessMode => "Empty process-mode".to_owned(),
            MachineManifestError::InvalidProcessMode(m) => concat3("Invalid Process mode(", m.as_str(), ")"),
            MachineManifestError::EmptyMachineFG => "Empty MachineFG".to_owned(),
            MachineManifestError::InvalidFGInitialMode(m, g) => concat5("Invalid initial mode(", m.as_str(), ") for ", g.as_str(), ""),
            MachineManifestError::InvalidFGMode(m, g) => concat5("Invalid mode(", m.as_str(), ") for ", g.as_str(), ""),
        }
    }
}

/// A [`MachineManifestError`] with its texts as characters.
pub enum MachineManifestErrorView {
    EmptyProcessMode,
    InvalidProcessMode(Seq<char>),
    EmptyMachineFG,
    InvalidFGInitialMode(Seq<char>, Seq<char>),
    InvalidFGMode(Seq<char>, Seq<char>),
}

impl View for MachineManifestError {
    type V = MachineManifestErrorView;

    open spec fn view(&self) -> MachineManifestErrorView {
        match self {
            MachineManifestError::EmptyProcessMode => MachineManifestErrorView::EmptyProcessMode,
            MachineManifestError::InvalidProcessMode(m) => MachineManifestErrorView::InvalidProcessMode(m@),
            MachineManifestError::EmptyMachineFG => MachineManifestErrorView::EmptyMachineFG,
            MachineManifestError::InvalidFGInitialMode(m, g) => MachineManifestErrorView::InvalidFGInitialMode(m@, g@),
            MachineManifestError::InvalidFGMode(m, g) => MachineManifestErrorView::InvalidFGMode(m@, g@),
        }
    }
}

/// The process modes every machine manifest must declare.
pub open spec fn required_process_modes() -> Set<Seq<char>> {
    set![RUNNING@, TERMINATED@]
}

/// The modes of the reserved group `MachineFG`.
pub open spec fn machine_fg_modes() -> Set<Seq<char>> {
    set![STARTUP@, SHUTDOWN@, RESTART@]
}

/// What is wrong with function group `name`, if anything.
pub open spec fn function_group_fault(name: Seq<char>, fg: FunctionGroupMode) -> Option<MachineManifestErrorView> {
    let modes = texts(fg.mode@);
    if name == MACHINE_FG@ {
        if fg.initial_mode@ != STARTUP@ {
            Some(MachineManifestErrorView::InvalidFGInitialMode(fg.initial_mode@, name))
        } else if text_set(modes) != machine_fg_modes() {
            Some(MachineManifestErrorView::InvalidFGMode(join_comma(modes), name))
        } else {
            None
        }
    } else {
        if fg.initial_mode@ != OFF@ {
            Some(MachineManifestErrorView::InvalidFGInitialMode(fg.initial_mode@, name))
        } else if !modes.contains(OFF@) {
            Some(MachineManifestErrorView::InvalidFGMode(join_comma(modes), name))
        } else {
            None
        }
    }
}

/// The fault of the first faulty function group among `groups`.
pub open spec fn first_function_group_fault(groups: Seq<(Seq<char>, FunctionGroupMode)>) -> Option<MachineManifestErrorView>
    decreases groups.len(),
{
    if groups.len() == 0 {
        None
    } else {
        match function_group_fault(groups[0].0, groups[0].1) {
            Some(e) => Some(e),
            None => first_function_group_fault(groups.drop_first()),
        }
    }
}

/// Why `m` is rejected, or `None` when it is valid.
pub open spec fn machine_manifest_fault(m: MachineManifest) -> Option<MachineManifestErrorView> {
    let modes = texts(m.process_mode@);
    if modes.len() == 0 {
        Some(MachineManifestErrorView::EmptyProcessMode)
    } else if text_set(modes) != required_process_modes() {
        Some(MachineManifestErrorView::InvalidProcessMode(join_comma(modes)))
    } else if !has_key(m.function_group_set@, MACHINE_FG@) {
        Some(MachineManifestErrorView::EmptyMachineFG)
    } else {
        first_function_group_fault(m.function_group_set@)
    }
}

/// The process modes a manifest has when it names none.
pub fn default_process_mode() -> (r: Vec<String>)
    ensures
        texts(r@) == seq![RUNNING@, TERMINATED@],
{
    let r = vec![RUNNING.to_owned(), TERMINATED.to_owned()];
    assert(texts(r@) =~= seq![RUNNING@, TERMINATED@]);
    r
}

/// The function groups a manifest has when it names none: `MachineFG` alone.
pub fn default_function_group_set() -> (r: StringMap<FunctionGroupMode>)
    ensures
        r@.len() == 1,
        r@[0].0 == MACHINE_FG@,
        r@[0].1.initial_mode@ == STARTUP@,
        texts(r@[0].1.mode@) == seq![STARTUP@, SHUTDOWN@, RESTART@],
{
    let mut set = StringMap::new();
    let modes = vec![STARTUP.to_owned(), SHUTDOWN.to_owned(), RESTART.to_owned()];
    assert(texts(modes@) =~= seq![STARTUP@, SHUTDOWN@, RESTART@]);
    set.insert(
        MACHINE_FG.to_owned(),
        FunctionGroupMode { initial_mode: STARTUP.to_owned(), mode: modes },
    );
    set
}

proof fn lemma_text_set_pair(a: Seq<char>, b: Seq<char>)
    ensures
        text_set(seq![a, b]) == set![a, b],
{
    assert forall|x: Seq<char>| text_set(seq![a, b]).contains(x) <==> set![a, b].contains(x) by {
        if x == a {
            assert(seq![a, b][0] == x);
        } else if x == b {
            assert(seq![a, b][1] == x);
        }
    }
    assert(text_set(seq![a, b]) =~= set![a, b]);
}

proof fn lemma_text_set_triple(a: Seq<char>, b: Seq<char>, c: Seq<char>)
    ensures
        text_set(seq![a, b, c]) == set![a, b, c],
{
    assert forall|x: Seq<char>| text_set(seq![a, b, c]).contains(x) <==> set![a, b, c].contains(x) by {
        if x == a {
            assert(seq![a, b, c][0] == x);
        } else if x == b {
            assert(seq![a, b, c][1] == x);
        } else if x == c {
            assert(seq![a, b, c][2] == x);
        }
    }
    assert(text_set(seq![a, b, c]) =~= set![a, b, c]);
}

impl MachineManifest {
    /// Accepts the manifest when its process modes are exactly `Running` and
    /// `Terminated`, `MachineFG` is declared with initial mode `Startup` and the
    /// modes `Startup`, `Shutdown` and `Restart`, and every other function group
    /// starts in `Off` and declares it. Otherwise reports the first violation.
    pub fn validate(self) -> (r: Result<MachineManifest, MachineManifestError>)
        ensures
            match machine_manifest_fault(self) {
                None => r == Ok::<MachineManifest, MachineManifestError>(self),
                Some(e) => r is Err && r->Err_0@ == e,
            },
            r is Ok ==> text_set(texts(self.process_mode@)) == required_process_modes(),
            texts(self.process_mode@).len() > 0 && text_set(texts(self.process_mode@)) != required_process_modes()
                ==> (r matches Err(MachineManifestError::InvalidProcessMode(m)) && m@ == join_comma(texts(self.process_mode@))),
            text_set(texts(self.process_mode@)) == required_process_modes() && texts(self.process_mode@).len() > 0
                && !has_key(self.function_group_set@, MACHINE_FG@) ==> r matches Err(MachineManifestError::EmptyMachineFG),
    {
        if self.process_mode.len() == 0 {
            return Err(MachineManifestError::EmptyProcessMode);
        }
        let required = default_process_mode();
        proof {
            lemma_text_set_pair(RUNNING@, TERMINATED@);
        }
        if !same_text_set(&self.process_mode, &required) {
            return Err(MachineManifestError::InvalidProcessMode(join_with_comma(&self.process_mode)));
        }
        if !self.function_group_set.contains_key(MACHINE_FG) {
            return Err(MachineManifestError::EmptyMachineFG);
        }
        let machine_modes = vec![STARTUP.to_owned(), SHUTDOWN.to_owned(), RESTART.to_owned()];
        proof {
            assert(texts(machine_modes@) =~= seq![STARTUP@, SHUTDOWN@, RESTART@]);
            lemma_text_set_triple(STARTUP@, SHUTDOWN@, RESTART@);
        }
        let ghost groups = self.function_group_set@;
        assert(machine_manifest_fault(self) == first_function_group_fault(groups));
        let n = self.function_group_set.len();
        let mut i: usize = 0;
        assert(groups.skip(0) =~= groups);
        while i < n
            invariant
                n == groups.len(),
                groups == self.function_group_set@,
                text_set(texts(machine_modes@)) == machine_fg_modes(),
                i <= n,
                machine_manifest_fault(self) == first_function_group_fault(groups.skip(i as int)),
            decreases n - i,
        {
            let name = self.function_group_set.key_at(i);
            let fg = self.function_group_set.value_at(i);
            assert(groups.skip(i as int)[0] == groups[i as int]);
            assert(groups.skip(i as int).drop_first() =~= groups.skip(i + 1));
            if same_text(name.as_str(), MACHINE_FG) {
                if !same_text(fg.initial_mode.as_str(), STARTUP) {
                    return Err(MachineManifestError::InvalidFGInitialMode(fg.initial_mode.clone(), name.clone()));
                }
                if !same_text_set(&fg.mode, &machine_modes) {
                    return Err(MachineManifestError::InvalidFGMode(join_with_comma(&fg.mode), name.clone()));
                }
            } else {
                if !same_text(fg.initial_mode.as_str(), OFF) {
                    return Err(MachineManifestError::InvalidFGInitialMode(fg.initial_mode.clone(), name.clone()));
                }
                if !contains_text(&fg.mode, OFF) {
                    return Err(MachineManifestError::InvalidFGMode(join_with_comma(&fg.mode), name.clone()));
                }
            }
            i = i + 1;
        }
        assert(groups.skip(n as int).len() == 0);
        Ok(self)
    }
}

} // verus!
