//! Consistency of the whole set of execution manifests.

use crate::execution_manifest::{
    execution_manifest_fault, manifest_views, ExecutionManifest, ExecutionManifestError,
    ExecutionManifestErrorView, ExecutionManifestView,
};
use crate::machine_manifest::MachineManifest;
use crate::text::{concat3, concat5, contains_text, dot_head, head_before_dot, same_text};
use vstd::prelude::*;

verus! {

/// Why a set of execution manifests is rejected.
#[derive(Debug)]
pub enum ManifestSetError {
    Execution(ExecutionManifestError),
    DuplicatedAppName(String),
    MissingDependencyApp(String, String),
    SelfDependency(String),
    InvalidModeDependency(String),
}

impl ManifestSetError {
    /// The message that describes the error.
    pub fn to_string(&self) -> (r: String)
        ensures
            match self {
                ManifestSetError::Execution(e) => r@ == e.message(),
                ManifestSetError::DuplicatedAppName(a) => r@ == "Duplicated application name : "@ + a@ + ""@,
                ManifestSetError::MissingDependencyApp(d, a) => r@ == "Missing dependency application : "@ + d@ + " for "@ + a@ + ""@,
                ManifestSetError::SelfDependency(a) => r@ == "Self dependency is not allowed : "@ + a@ + ""@,
                ManifestSetError::InvalidModeDependency(d) => r@ == "Dependency app("@ + d@ + ") is not in the mode"@,
            },
    {
        match self {
            ManifestSetError::Execution(e) => e.to_string(),
            ManifestSetError::DuplicatedAppName(a) => concat3("Duplicated application name : ", a.as_str(), ""),
            ManifestSetError::MissingDependencyApp(d, a) => concat5("Missing dependency application : ", d.as_str(), " for ", a.as_str(), ""),
            ManifestSetError::SelfDependency(a) => concat3("Self dependency is not allowed : ", a.as_str(), ""),
            ManifestSetError::InvalidModeDependency(d) => concat3("Dependency app(", d.as_str(), ") is not in the mode"),
        }
    }
}

/// A [`ManifestSetError`] with its texts as characters.
pub enum ManifestSetErrorView {
    Execution(ExecutionManifestErrorView),
    DuplicatedAppName(Seq<char>),
    MissingDependencyApp(Seq<char>, Seq<char>),
    SelfDependency(Seq<char>),
    InvalidModeDependency(Seq<char>),
}

impl View for ManifestSetError {
    type V = ManifestSetErrorView;

    open spec fn view(&self) -> ManifestSetErrorView {
        match self {
            ManifestSetError::Execution(e) => ManifestSetErrorView::Execution(e@),
            ManifestSetError::DuplicatedAppName(a) => ManifestSetErrorView::DuplicatedAppName(a@),
            ManifestSetError::MissingDependencyApp(d, a) => ManifestSetErrorView::MissingDependencyApp(d@, a@),
            ManifestSetError::SelfDependency(a) => ManifestSetErrorView::SelfDependency(a@),
            ManifestSetError::InvalidModeDependency(d) => ManifestSetErrorView::InvalidModeDependency(d@),
        }
    }
}

/// Some application of `apps` is named `x`.
pub open spec fn has_app(apps: Seq<ExecutionManifestView>, x: Seq<char>) -> bool {
    exists|j: int| 0 <= j < apps.len() && apps[j].name == x
}

/// `j` is the first application of `apps` named `x`.
pub open spec fn is_first_app(apps: Seq<ExecutionManifestView>, x: Seq<char>, j: int) -> bool {
    &&& 0 <= j < apps.len()
    &&& apps[j].name == x
    &&& forall|i: int| 0 <= i < j ==> apps[i].name != x
}

/// Applications `a` and `b` take part in a common function-group mode.
pub open spec fn share_mode(a: ExecutionManifestView, b: ExecutionManifestView) -> bool {
    exists|i: int| 0 <= i < b.mode_dependency.len() && a.mode_dependency.contains(b.mode_dependency[i])
}

/// What is wrong with application `k` taken alone: it does not fit the
/// machine manifest, or an earlier application has its name.
pub open spec fn entry_fault(apps: Seq<ExecutionManifestView>, machine: MachineManifest, k: int) -> Option<ManifestSetErrorView> {
    match execution_manifest_fault(apps[k], machine) {
        Some(e) => Some(ManifestSetErrorView::Execution(e)),
        None => if exists|j: int| 0 <= j < k && apps[j].name == apps[k].name {
            Some(ManifestSetErrorView::DuplicatedAppName(apps[k].name))
        } else {
            None
        },
    }
}

/// The first fault of applications `k` and later taken alone.
pub open spec fn first_entry_fault(apps: Seq<ExecutionManifestView>, machine: MachineManifest, k: int) -> Option<ManifestSetErrorView>
    decreases apps.len() - k,
{
    if k < 0 || k >= apps.len() {
        None
    } else {
        match entry_fault(apps, machine, k) {
            Some(e) => Some(e),
            None => first_entry_fault(apps, machine, k + 1),
        }
    }
}

/// What is wrong with dependency `dep` of application `a`: its target must
/// exist, differ from `a`, and share a function-group mode with `a`.
pub open spec fn dependency_fault(apps: Seq<ExecutionManifestView>, a: int, dep: Seq<char>) -> Option<ManifestSetErrorView> {
    let x = dot_head(dep);
    if !has_app(apps, x) {
        Some(ManifestSetErrorView::MissingDependencyApp(x, apps[a].name))
    } else if x == apps[a].name {
        Some(ManifestSetErrorView::SelfDependency(x))
    } else {
        let j = choose|j: int| is_first_app(apps, x, j);
        if share_mode(apps[a], apps[j]) {
            None
        } else {
            Some(ManifestSetErrorView::InvalidModeDependency(x))
        }
    }
}

/// The first fault among dependencies `d` and later of application `a`.
pub open spec fn first_dependency_fault_of(apps: Seq<ExecutionManifestView>, a: int, d: int) -> Option<ManifestSetErrorView>
    decreases apps[a].app_dependency.len() - d,
{
    if d < 0 || d >= apps[a].app_dependency.len() {
        None
    } else {
        match dependency_fault(apps, a, apps[a].app_dependency[d]) {
            Some(e) => Some(e),
            None => first_dependency_fault_of(apps, a, d + 1),
        }
    }
}

/// The first dependency fault of applications `a` and later.
pub open spec fn first_dependency_fault(apps: Seq<ExecutionManifestView>, a: int) -> Option<ManifestSetErrorView>
    decreases apps.len() - a,
{
    if a < 0 || a >= apps.len() {
        None
    } else {
        match first_dependency_fault_of(apps, a, 0) {
            Some(e) => Some(e),
            None => first_dependency_fault(apps, a + 1),
        }
    }
}

/// Why the set `apps` is rejected: first each application alone, in order,
/// then the dependencies, in order; `None` when it is consistent.
pub open spec fn manifest_set_fault(machine: MachineManifest, apps: Seq<ExecutionManifestView>) -> Option<ManifestSetErrorView> {
    match first_entry_fault(apps, machine, 0) {
        Some(e) => Some(e),
        None => first_dependency_fault(apps, 0),
    }
}

/// The first application of `apps` named `x`, if any.
fn find_app(apps: &Vec<ExecutionManifest>, x: &str) -> (r: Option<usize>)
    ensures
        match r {
            Some(j) => is_first_app(manifest_views(apps@), x@, j as int),
            None => !has_app(manifest_views(apps@), x@),
        },
{
    let ghost views = manifest_views(apps@);
    let mut j: usize = 0;
    while j < apps.len()
        invariant
            views == manifest_views(apps@),
            j <= apps@.len(),
            forall|i: int| 0 <= i < j ==> views[i].name != x@,
        decreases apps@.len() - j,
    {
        if same_text(apps[j].name.as_str(), x) {
            return Some(j);
        }
        j = j + 1;
    }
    None
}

/// Whether `a` and `b` take part in a common function-group mode.
fn shares_mode(a: &ExecutionManifest, b: &ExecutionManifest) -> (r: bool)
    ensures
        r == share_mode(a@, b@),
{
    let mut i: usize = 0;
    while i < b.mode_dependency.len()
        invariant
            i <= b.mode_dependency@.len(),
            forall|k: int| 0 <= k < i ==> !a@.mode_dependency.contains(#[trigger] b@.mode_dependency[k]),
        decreases b.mode_dependency@.len() - i,
    {
        assert(b@.mode_dependency[i as int] == b.mode_dependency@[i as int]@);
        if contains_text(&a.mode_dependency, b.mode_dependency[i].as_str()) {
            return true;
        }
        i = i + 1;
    }
    false
}

proof fn lemma_first_app_unique(apps: Seq<ExecutionManifestView>, x: Seq<char>, j: int)
    requires
        is_first_app(apps, x, j),
    ensures
        (choose|i: int| is_first_app(apps, x, i)) == j,
{
    let c = choose|i: int| is_first_app(apps, x, i);
    if c < j {
        assert(apps[c].name != x);
    } else if j < c {
        assert(apps[j].name != x);
    }
}

/// Checks every application against the machine manifest and the others:
/// names are unique, and each dependency names another application that
/// shares a function-group mode with it. Reports the first violation.
pub fn validate_manifest(machine: &MachineManifest, executions: &Vec<ExecutionManifest>) -> (r: Result<(), ManifestSetError>)
    ensures
        match manifest_set_fault(*machine, manifest_views(executions@)) {
            None => r is Ok,
            Some(e) => r is Err && r->Err_0@ == e,
        },
{
    let ghost apps = manifest_views(executions@);
    let n = executions.len();
    let mut k: usize = 0;
    while k < n
        invariant
            apps == manifest_views(executions@),
            n == apps.len(),
            k <= n,
            first_entry_fault(apps, *machine, 0) == first_entry_fault(apps, *machine, k as int),
        decreases n - k,
    {
        let execution = &executions[k];
        assert(apps[k as int] == execution@);
        match execution.validate(machine) {
            Err(e) => {
                return Err(ManifestSetError::Execution(e));
            },
            Ok(()) => {},
        }
        match find_app(executions, execution.name.as_str()) {
            Some(j) => {
                if j < k {
                    return Err(ManifestSetError::DuplicatedAppName(execution.name.clone()));
                }
                assert(!exists|i: int| 0 <= i < k && apps[i].name == apps[k as int].name);
            },
            None => {},
        }
        k = k + 1;
    }
    let mut a: usize = 0;
    while a < n
        invariant
            apps == manifest_views(executions@),
            n == apps.len(),
            a <= n,
            first_entry_fault(apps, *machine, 0) is None,
            first_dependency_fault(apps, 0) == first_dependency_fault(apps, a as int),
        decreases n - a,
    {
        let execution = &executions[a];
        assert(apps[a as int] == execution@);
        let mut d: usize = 0;
        while d < execution.app_dependency.len()
            invariant
                apps == manifest_views(executions@),
                n == apps.len(),
                a < n,
                apps[a as int] == execution@,
                first_entry_fault(apps, *machine, 0) is None,
                first_dependency_fault(apps, 0) == first_dependency_fault(apps, a as int),
                d <= execution.app_dependency@.len(),
                first_dependency_fault_of(apps, a as int, 0) == first_dependency_fault_of(apps, a as int, d as int),
            decreases execution.app_dependency@.len() - d,
        {
            let dependency = &execution.app_dependency[d];
            assert(apps[a as int].app_dependency[d as int] == dependency@);
            let target = head_before_dot(dependency.as_str());
            match find_app(executions, target.as_str()) {
                None => {
                    return Err(ManifestSetError::MissingDependencyApp(target, execution.name.clone()));
                },
                Some(j) => {
                    if same_text(target.as_str(), execution.name.as_str()) {
                        return Err(ManifestSetError::SelfDependency(target));
                    }
                    proof {
                        lemma_first_app_unique(apps, target@, j as int);
                    }
                    assert(apps[j as int] == executions@[j as int]@);
                    if !shares_mode(execution, &executions[j]) {
                        return Err(ManifestSetError::InvalidModeDependency(target));
                    }
                },
            }
            d = d + 1;
        }
        a = a + 1;
    }
    Ok(())
}

} // verus!
