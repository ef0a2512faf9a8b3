use oara_em::execution_manifest::ExecutionManifest;
use oara_em::group::{collect_bucket, group};
use oara_em::order::{order_applications, GroupingError};
use oara_em::machine_manifest::{default_process_mode, FunctionGroupMode, MachineManifest};
use oara_em::string_map::StringMap;

fn texts(items: &[&str]) -> Vec<String> {
    items.iter().map(|s| s.to_string()).collect()
}

fn app(name: &str, app_dependency: &[&str], mode_dependency: &[&str]) -> ExecutionManifest {
    ExecutionManifest {
        name: name.to_string(),
        environmental_variable: StringMap::new(),
        argument: StringMap::new(),
        enter_exit_timeout: None,
        reporting_behavior: false,
        number_of_restart: 0,
        app_dependency: texts(app_dependency),
        mode_dependency: texts(mode_dependency),
    }
}

fn machine() -> MachineManifest {
    let mut function_group_set = StringMap::new();
    function_group_set.insert(
        "MachineFG".to_string(),
        FunctionGroupMode {
            initial_mode: "Startup".to_string(),
            mode: texts(&["Startup", "Shutdown", "Restart"]),
        },
    );
    function_group_set.insert(
        "FG1".to_string(),
        FunctionGroupMode { initial_mode: "Off".to_string(), mode: texts(&["Off", "On"]) },
    );
    MachineManifest {
        default_application_timeout: None,
        environment_variable: StringMap::new(),
        process_mode: default_process_mode(),
        function_group_set,
    }
}

fn names(list: &Vec<ExecutionManifest>) -> Vec<String> {
    list.iter().map(|a| a.name.clone()).collect()
}

#[test]
fn grouping_test() {
    let apps = vec![
        app("A", &["B.Running"], &["MachineFG.Startup", "FG1.Off"]),
        app("B", &[], &["MachineFG.Startup", "FG1.Off"]),
    ];
    let table = group(&machine(), &apps).unwrap();
    let startup = table.get("MachineFG").unwrap().get("Startup").unwrap();
    assert_eq!(names(startup), texts(&["B", "A"]));
    let off = table.get("FG1").unwrap().get("Off").unwrap();
    assert_eq!(names(off), texts(&["A", "B"]));
}

#[test]
fn every_declared_mode_has_a_bucket() {
    let table = group(&machine(), &vec![]).unwrap();
    assert_eq!(table.len(), 2);
    let machine_fg = table.get("MachineFG").unwrap();
    assert_eq!(machine_fg.len(), 3);
    assert!(machine_fg.get("Shutdown").unwrap().is_empty());
    assert!(table.get("FG1").unwrap().get("On").unwrap().is_empty());
    assert!(table.get("FG2").is_none());
}

#[test]
fn dependency_order_is_stable() {
    let list = vec![
        app("C", &["A.Running"], &["FG1.On"]),
        app("D", &[], &["FG1.On"]),
        app("A", &[], &["FG1.On"]),
        app("E", &["C.Running", "D.Running"], &["FG1.On"]),
    ];
    let ordered = order_applications(&list, false).unwrap();
    assert_eq!(names(&ordered), texts(&["D", "A", "C", "E"]));
    let reversed = order_applications(&list, true).unwrap();
    assert_eq!(names(&reversed), texts(&["E", "C", "A", "D"]));
}

#[test]
fn chain_is_ordered_from_the_root() {
    let list = vec![
        app("A", &["B.Running"], &["FG1.On"]),
        app("B", &["C.Running"], &["FG1.On"]),
        app("C", &[], &["FG1.On"]),
    ];
    let ordered = order_applications(&list, false).unwrap();
    assert_eq!(names(&ordered), texts(&["C", "B", "A"]));
}

#[test]
fn dependency_outside_the_bucket_is_reported() {
    let apps = vec![
        app("A", &["B.Running"], &["FG1.On"]),
        app("B", &[], &["MachineFG.Startup"]),
    ];
    let e = group(&machine(), &apps).err().unwrap();
    match &e {
        GroupingError::NoDependencyApps(a, d) => {
            assert_eq!(a, "A");
            assert_eq!(d, "B.Running");
        }
        _ => panic!("expected a missing dependency"),
    }
    assert_eq!(e.to_string(), "No dependency application : B.Running for A");
}

#[test]
fn one_dependency_in_the_bucket_is_enough() {
    let list = vec![
        app("A", &["X.Running", "B.Running"], &["FG1.On"]),
        app("B", &[], &["FG1.On"]),
    ];
    let ordered = order_applications(&list, false).unwrap();
    assert_eq!(names(&ordered), texts(&["B", "A"]));
}

#[test]
fn bucket_collects_each_naming_entry() {
    let apps = vec![
        app("A", &[], &["FG1.On", "MachineFG.Startup"]),
        app("B", &[], &["FG1.Off"]),
        app("C", &[], &["FG1.On"]),
    ];
    let bucket = collect_bucket(&apps, "FG1", "On");
    assert_eq!(names(&bucket), texts(&["A", "C"]));
}

#[test]
fn circular_dependency_is_reported() {
    let list = vec![
        app("P", &[], &["FG1.On"]),
        app("A", &["B.Running"], &["FG1.On"]),
        app("B", &["A.Running"], &["FG1.On"]),
    ];
    let e = order_applications(&list, false).err().unwrap();
    assert_eq!(e.to_string(), "Circular dependency : A");
}
