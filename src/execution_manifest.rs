//! The execution manifest of one application and its check against the machine manifest.

use crate::machine_manifest::MachineManifest;
use crate::search::{first_some, lemma_first_some_ends, lemma_first_some_step};
use crate::string_map::{has_key, text_pairs, value_of, StringMap};
use crate::text::{concat5, contains_text, copy_texts, split_dot, split_once_dot, texts};
use vstd::prelude::*;

verus! {

/// Seconds an application may take to enter and to leave a mode.
#[derive(Debug, Clone, Copy, PartialEq, Eq, Structural)]
pub struct EnterExitTimeout {
    pub enter: i32,
    pub exit: i32,
}

/// The per-application manifest.
#[derive(Debug)]
pub struct ExecutionManifest {
    pub name: String,
    pub environmental_variable: StringMap<String>,
    pub argument: StringMap<String>,
    pub enter_exit_timeout: Option<EnterExitTimeout>,
    pub reporting_behavior: bool,
    pub number_of_restart: i32,
    pub app_dependency: Vec<String>,
    pub mode_dependency: Vec<String>,
}

/// An [`ExecutionManifest`] with its texts as characters.
pub struct ExecutionManifestView {
    pub name: Seq<char>,
    pub environmental_variable: Seq<(Seq<char>, Seq<char>)>,
    pub argument: Seq<(Seq<char>, Seq<char>)>,
    pub enter_exit_timeout: Option<EnterExitTimeout>,
    pub reporting_behavior: bool,
    pub number_of_restart: i32,
    pub app_dependency: Seq<Seq<char>>,
    pub mode_dependency: Seq<Seq<char>>,
}

impl View for ExecutionManifest {
    type V = ExecutionManifestView;

    open spec fn view(&self) -> ExecutionManifestView {
        ExecutionManifestView {
            name: self.name@,
            environmental_variable: text_pairs(self.environmental_variable@),
            argument: text_pairs(self.argument@),
            enter_exit_timeout: self.enter_exit_timeout,
            reporting_behavior: self.reporting_behavior,
            number_of_restart: self.number_of_restart,
            app_dependency: texts(self.app_dependency@),
            mode_dependency: texts(self.mode_dependency@),
        }
    }
}

/// The views of a sequence of manifests.
pub open spec fn manifest_views(v: Seq<ExecutionManifest>) -> Seq<ExecutionManifestView> {
    v.map_values(|a: ExecutionManifest| a@)
}

impl Clone for ExecutionManifest {
    fn clone(&self) -> (r: Self)
        ensures
            r@ == self@,
    {
        ExecutionManifest {
            name: self.name.clone(),
            environmental_variable: self.environmental_variable.clone(),
            argument: self.argument.clone(),
            enter_exit_timeout: self.enter_exit_timeout,
            reporting_behavior: self.reporting_behavior,
            number_of_restart: self.number_of_restart,
            app_dependency: copy_texts(&self.app_dependency),
            mode_dependency: copy_texts(&self.mode_dependency),
        }
    }
}

/// Why an execution manifest does not fit the machine manifest.
#[derive(Debug)]
pub enum ExecutionManifestError {
    InvalidApplicationDependencyFormat(String, String),
    InvalidApplicationDependencyMode(String, String),
    InvalidModeDependencyFormat(String, String),
    FGNotExist(String, String),
    NoModeInFG(String, String),
}

impl ExecutionManifestError {
    /// The message that describes the error.
    pub open spec fn message(&self) -> Seq<char> {
        match self {
                ExecutionManifestError::InvalidApplicationDependencyFormat(d, a) => "Inavlid application dependency format: "@ + d@ + " for "@ + a@ + ""@,
                ExecutionManifestError::InvalidApplicationDependencyMode(d, a) => "Inavlid application dependency: "@ + d@ + " for "@ + a@ + ""@,
                ExecutionManifestError::InvalidModeDependencyFormat(d, a) => "Inavlid mode dependency format: "@ + d@ + " for "@ + a@ + ""@,
                ExecutionManifestError::FGNotExist(g, a) => "Function group("@ + g@ + ") doesn't exist for "@ + a@ + ""@,
                ExecutionManifestError::NoModeInFG(d, a) => "No mode("@ + d@ + ") for "@ + a@ + ""@,
        }
    }

    /// The message that describes the error.
    pub fn to_string(&self) -> (r: String)
        ensures
            r@ == self.message(),
    {
        match self {
            ExecutionManifestError::InvalidApplicationDependencyFormat(d, a) => concat5("Inavlid application dependency format: ", d.as_str(), " for ", a.as_str(), ""),
            ExecutionManifestError::InvalidApplicationDependencyMode(d, a) => concat5("Inavlid application dependency: ", d.as_str(), " for ", a.as_str(), ""),
            ExecutionManifestError::InvalidModeDependencyFormat(d, a) => concat5("Inavlid mode dependency format: ", d.as_str(), " for ", a.as_str(), ""),
            ExecutionManifestError::FGNotExist(g, a) => concat5("Function group(", g.as_str(), ") doesn't exist for ", a.as_str(), ""),
            ExecutionManifestError::NoModeInFG(d, a) => concat5("No mode(", d.as_str(), ") for ", a.as_str(), ""),
        }
    }
}

/// An [`ExecutionManifestError`] with its texts as characters.
pub enum ExecutionManifestErrorView {
    InvalidApplicationDependencyFormat(Seq<char>, Seq<char>),
    InvalidApplicationDependencyMode(Seq<char>, Seq<char>),
    InvalidModeDependencyFormat(Seq<char>, Seq<char>),
    FGNotExist(Seq<char>, Seq<char>),
    NoModeInFG(Seq<char>, Seq<char>),
}

impl View for ExecutionManifestError {
    type V = ExecutionManifestErrorView;

    open spec fn view(&self) -> ExecutionManifestErrorView {
        match self {
            ExecutionManifestError::InvalidApplicationDependencyFormat(d, a) => ExecutionManifestErrorView::InvalidApplicationDependencyFormat(d@, a@),
            ExecutionManifestError::InvalidApplicationDependencyMode(d, a) => ExecutionManifestErrorView::InvalidApplicationDependencyMode(d@, a@),
            ExecutionManifestError::InvalidModeDependencyFormat(d, a) => ExecutionManifestErrorView::InvalidModeDependencyFormat(d@, a@),
            ExecutionManifestError::FGNotExist(g, a) => ExecutionManifestErrorView::FGNotExist(g@, a@),
            ExecutionManifestError::NoModeInFG(d, a) => ExecutionManifestErrorView::NoModeInFG(d@, a@),
        }
    }
}

/// What is wrong with the application dependency `dep` of application `app`:
/// it must read `Name.Mode` with a mode among `process_modes`.
pub open spec fn app_dependency_fault(
    app: Seq<char>,
    process_modes: Seq<Seq<char>>,
    dep: Seq<char>,
) -> Option<ExecutionManifestErrorView> {
    match split_dot(dep) {
        None => Some(ExecutionManifestErrorView::InvalidApplicationDependencyFormat(dep, app)),
        Some(parts) => if process_modes.contains(parts.1) {
            None
        } else {
            Some(ExecutionManifestErrorView::InvalidApplicationDependencyMode(dep, app))
        },
    }
}

/// What is wrong with the mode dependency `dep` of application `app`: it
/// must read `Group.Mode` for a declared group and one of its modes.
pub open spec fn mode_dependency_fault(
    app: Seq<char>,
    groups: Seq<(Seq<char>, crate::machine_manifest::FunctionGroupMode)>,
    dep: Seq<char>,
) -> Option<ExecutionManifestErrorView> {
    match split_dot(dep) {
        None => Some(ExecutionManifestErrorView::InvalidModeDependencyFormat(dep, app)),
        Some(parts) => match value_of(groups, parts.0) {
            None => Some(ExecutionManifestErrorView::FGNotExist(parts.0, app)),
            Some(fg) => if texts(fg.mode@).contains(parts.1) {
                None
            } else {
                Some(ExecutionManifestErrorView::NoModeInFG(dep, app))
            },
        },
    }
}

/// The check of each application dependency of application `app`.
pub open spec fn app_dependency_check(app: Seq<char>, process_modes: Seq<Seq<char>>) -> spec_fn(Seq<char>) -> Option<ExecutionManifestErrorView> {
    |d: Seq<char>| app_dependency_fault(app, process_modes, d)
}

/// The check of each mode dependency of application `app`.
pub open spec fn mode_dependency_check(
    app: Seq<char>,
    groups: Seq<(Seq<char>, crate::machine_manifest::FunctionGroupMode)>,
) -> spec_fn(Seq<char>) -> Option<ExecutionManifestErrorView> {
    |d: Seq<char>| mode_dependency_fault(app, groups, d)
}

/// Why `app` does not fit `machine`: the first faulty application dependency,
/// else the first faulty mode dependency; `None` when it fits.
pub open spec fn execution_manifest_fault(
    app: ExecutionManifestView,
    machine: MachineManifest,
) -> Option<ExecutionManifestErrorView> {
    match first_some(app.app_dependency, app_dependency_check(app.name, texts(machine.process_mode@))) {
        Some(e) => Some(e),
        None => first_some(app.mode_dependency, mode_dependency_check(app.name, machine.function_group_set@)),
    }
}

impl ExecutionManifest {
    /// Checks the dependency entries against the machine manifest and reports
    /// the first that does not fit.
    pub fn validate(&self, machine_manifest: &MachineManifest) -> (r: Result<(), ExecutionManifestError>)
        ensures
            match execution_manifest_fault(self@, *machine_manifest) {
                None => r is Ok,
                Some(e) => r is Err && r->Err_0@ == e,
            },
    {
        let ghost app = self@;
        let ghost fa = app_dependency_check(app.name, texts(machine_manifest.process_mode@));
        let ghost fm = mode_dependency_check(app.name, machine_manifest.function_group_set@);
        proof {
            lemma_first_some_ends(app.app_dependency, fa);
            lemma_first_some_ends(app.mode_dependency, fm);
        }
        let mut i: usize = 0;
        while i < self.app_dependency.len()
            invariant
                app == self@,
                fa == app_dependency_check(app.name, texts(machine_manifest.process_mode@)),
                i <= app.app_dependency.len(),
                first_some(app.app_dependency, fa) == first_some(app.app_dependency.skip(i as int), fa),
            decreases app.app_dependency.len() - i,
        {
            let dependency = &self.app_dependency[i];
            proof {
                lemma_first_some_step(app.app_dependency, fa, i as int);
                assert(app.app_dependency[i as int] == dependency@);
            }
            match split_once_dot(dependency.as_str()) {
                Some(parts) => {
                    if !contains_text(&machine_manifest.process_mode, parts.1.as_str()) {
                        return Err(ExecutionManifestError::InvalidApplicationDependencyMode(dependency.clone(), self.name.clone()));
                    }
                },
                None => {
                    return Err(ExecutionManifestError::InvalidApplicationDependencyFormat(dependency.clone(), self.name.clone()));
                },
            }
            i = i + 1;
        }
        let mut i: usize = 0;
        while i < self.mode_dependency.len()
            invariant
                app == self@,
                first_some(app.app_dependency, fa) is None,
                fa == app_dependency_check(app.name, texts(machine_manifest.process_mode@)),
                fm == mode_dependency_check(app.name, machine_manifest.function_group_set@),
                i <= app.mode_dependency.len(),
                first_some(app.mode_dependency, fm) == first_some(app.mode_dependency.skip(i as int), fm),
            decreases app.mode_dependency.len() - i,
        {
            let dependency = &self.mode_dependency[i];
            proof {
                lemma_first_some_step(app.mode_dependency, fm, i as int);
                assert(app.mode_dependency[i as int] == dependency@);
            }
            match split_once_dot(dependency.as_str()) {
                Some(parts) => {
                    match machine_manifest.function_group_set.get(parts.0.as_str()) {
                        Some(fg_mode) => {
                            if !contains_text(&fg_mode.mode, parts.1.as_str()) {
                                return Err(ExecutionManifestError::NoModeInFG(dependency.clone(), self.name.clone()));
                            }
                        },
                        None => {
                            return Err(ExecutionManifestError::FGNotExist(parts.0, self.name.clone()));
                        },
                    }
                },
                None => {
                    return Err(ExecutionManifestError::InvalidModeDependencyFormat(dependency.clone(), self.name.clone()));
                },
            }
            i = i + 1;
        }
        Ok(())
    }
}

} // verus!
