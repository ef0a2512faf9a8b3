use oara_em::execution_manifest::ExecutionManifest;
use oara_em::group::group;
use oara_em::order::GroupingError;
use oara_em::machine_manifest::{default_function_group_set, default_process_mode, MachineManifest};
use oara_em::manifest_set::{validate_manifest, ManifestSetError};
use oara_em::string_map::StringMap;

fn texts(items: &[&str]) -> Vec<String> {
    items.iter().map(|s| s.to_string()).collect()
}

fn valid_machine_manifest() -> MachineManifest {
    MachineManifest {
        default_application_timeout: None,
        environment_variable: StringMap::new(),
        process_mode: default_process_mode(),
        function_group_set: default_function_group_set(),
    }
    .validate()
    .unwrap()
}

fn app(name: &str, app_dependency: &[&str], mode_dependency: &[&str]) -> ExecutionManifest {
    ExecutionManifest {
        name: name.to_string(),
        environmental_variable: StringMap::new(),
        argument: StringMap::new(),
        enter_exit_timeout: None,
        reporting_behavior: false,
        number_of_restart: 0,
        app_dependency: texts(app_dependency),
        mode_dependency: texts(mode_dependency),
    }
}

fn valid_execution_manifest() -> ExecutionManifest {
    let mut sm = app("SM", &[], &["MachineFG.Startup"]);
    sm.environmental_variable.insert("ENV1".to_string(), "environment variable smaple1".to_string());
    sm.environmental_variable.insert("ENV2".to_string(), "environment variable smaple2".to_string());
    sm.argument.insert("ARG1".to_string(), "argument variable1".to_string());
    sm.argument.insert("ARG2".to_string(), "argument variable2".to_string());
    sm.reporting_behavior = true;
    sm
}

#[test]
fn valid_load_execution_manifest() {
    let machine_manifest = valid_machine_manifest();
    let execution_manifest = vec![valid_execution_manifest()];
    assert!(validate_manifest(&machine_manifest, &execution_manifest).is_ok());
}

#[test]
fn execution_manifest_duplicated_app_name() {
    let machine_manifest = valid_machine_manifest();
    let execution_manifest = vec![valid_execution_manifest(), valid_execution_manifest()];
    let validate = validate_manifest(&machine_manifest, &execution_manifest);
    assert_eq!(
        validate.err().map(|e| e.to_string()).unwrap(),
        String::from("Duplicated application name : SM"),
    );
}

#[test]
fn missing_dependency_app() {
    let machine_manifest = valid_machine_manifest();
    let execution_manifest = vec![app("SM", &["UCM.Running"], &["MachineFG.Startup"])];
    let validate = validate_manifest(&machine_manifest, &execution_manifest);
    assert_eq!(
        validate.err().map(|e| e.to_string()).unwrap(),
        String::from("Missing dependency application : UCM for SM"),
    );
}

#[test]
fn self_dependency_app() {
    let machine_manifest = valid_machine_manifest();
    let execution_manifest = vec![app("SM", &["SM.Running"], &["MachineFG.Startup"])];
    let validate = validate_manifest(&machine_manifest, &execution_manifest);
    assert_eq!(
        validate.err().map(|e| e.to_string()).unwrap(),
        String::from("Self dependency is not allowed : SM"),
    );
}

#[test]
fn invalid_mode_dependency_app() {
    let machine_manifest = valid_machine_manifest();
    let execution_manifest = vec![
        app("SM", &["UCM.Running"], &["MachineFG.Startup"]),
        app("UCM", &[], &["MachineFG.Shutdown"]),
    ];
    let validate = validate_manifest(&machine_manifest, &execution_manifest);
    assert_eq!(
        validate.err().map(|e| e.to_string()).unwrap(),
        String::from("Dependency app(UCM) is not in the mode"),
    );
}

#[test]
fn circular_dependency_app() {
    let machine_manifest = valid_machine_manifest();
    let execution_manifest = vec![
        app("A", &["B.Running"], &["MachineFG.Startup"]),
        app("B", &["A.Running"], &["MachineFG.Startup"]),
    ];
    assert!(validate_manifest(&machine_manifest, &execution_manifest).is_ok());
    let grouped = group(&machine_manifest, &execution_manifest);
    match grouped {
        Err(GroupingError::CircularDependency(name)) => assert_eq!(name, "A"),
        _ => panic!("a dependency cycle must be rejected"),
    }
}

#[test]
fn invalid_app_inside_a_set_is_reported() {
    let machine_manifest = valid_machine_manifest();
    let execution_manifest = vec![app("SM", &[], &["FG9.On"])];
    let e = validate_manifest(&machine_manifest, &execution_manifest).err().unwrap();
    assert!(matches!(e, ManifestSetError::Execution(_)));
    assert_eq!(e.to_string(), "Function group(FG9) doesn't exist for SM");
}

#[test]
fn dependency_sharing_one_mode_is_accepted() {
    let machine_manifest = valid_machine_manifest();
    let execution_manifest = vec![
        app("SM", &["UCM.Running"], &["MachineFG.Startup", "MachineFG.Restart"]),
        app("UCM", &[], &["MachineFG.Shutdown", "MachineFG.Restart"]),
    ];
    assert!(validate_manifest(&machine_manifest, &execution_manifest).is_ok());
}
