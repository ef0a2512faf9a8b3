use oara_em::execution_manifest::{EnterExitTimeout, ExecutionManifest, ExecutionManifestError};
use oara_em::machine_manifest::{
    default_function_group_set, default_process_mode, FunctionGroupMode, MachineManifest,
};
use oara_em::string_map::StringMap;

fn texts(items: &[&str]) -> Vec<String> {
    items.iter().map(|s| s.to_string()).collect()
}

fn test_app(name: &str) -> ExecutionManifest {
    ExecutionManifest {
        name: name.to_string(),
        environmental_variable: StringMap::new(),
        argument: StringMap::new(),
        enter_exit_timeout: None,
        reporting_behavior: false,
        number_of_restart: 0,
        app_dependency: vec![],
        mode_dependency: vec![],
    }
}

fn default_machine() -> MachineManifest {
    MachineManifest {
        default_application_timeout: None,
        environment_variable: StringMap::new(),
        process_mode: default_process_mode(),
        function_group_set: default_function_group_set(),
    }
}

#[test]
fn app_dependency_validate() {
    let mut execution_manifest = test_app("TestApp");
    let machine_manifest = default_machine();
    execution_manifest.name = "TestApp".to_owned();
    execution_manifest.app_dependency = vec!["APP1.Running".to_owned(), "APP2.Terminated".to_owned()];
    assert!(execution_manifest.validate(&machine_manifest).is_ok());

    execution_manifest.app_dependency = vec!["APP1Running".to_owned(), "APP2.Terminated".to_owned()];
    let validate = execution_manifest.validate(&machine_manifest);
    assert_eq!(
        validate.err().map(|e| e.to_string()).unwrap(),
        String::from("Inavlid application dependency format: APP1Running for TestApp"),
    );

    execution_manifest.app_dependency = vec!["APP1.Running".to_owned(), "APP2.Terminating".to_owned()];
    let validate = execution_manifest.validate(&machine_manifest);
    assert_eq!(
        validate.err().map(|e| e.to_string()).unwrap(),
        String::from("Inavlid application dependency: APP2.Terminating for TestApp"),
    );
}

#[test]
fn mode_dependency_validate() {
    let mut execution_manifest = test_app("TestApp");
    let mut machine_manifest = default_machine();

    execution_manifest.name = "TestApp".to_owned();
    execution_manifest.mode_dependency = vec!["MachineFG.Startup".to_owned()];
    assert!(execution_manifest.validate(&machine_manifest).is_ok());

    execution_manifest.mode_dependency = vec!["MachineFGStartup".to_owned()];
    let validate = execution_manifest.validate(&machine_manifest);
    assert_eq!(
        validate.err().map(|e| e.to_string()).unwrap(),
        String::from("Inavlid mode dependency format: MachineFGStartup for TestApp"),
    );

    execution_manifest.mode_dependency = vec!["FG1.On".to_owned()];
    let validate = execution_manifest.validate(&machine_manifest);
    assert_eq!(
        validate.err().map(|e| e.to_string()).unwrap(),
        String::from("Function group(FG1) doesn't exist for TestApp"),
    );

    execution_manifest.mode_dependency = vec!["FG1.On".to_owned()];
    machine_manifest.function_group_set.insert(
        "FG1".to_owned(),
        FunctionGroupMode { initial_mode: "FG1".to_owned(), mode: vec![] },
    );
    let validate = execution_manifest.validate(&machine_manifest);
    assert_eq!(
        validate.err().map(|e| e.to_string()).unwrap(),
        String::from("No mode(FG1.On) for TestApp"),
    );
}

#[test]
fn app_dependencies_are_checked_before_mode_dependencies() {
    let mut app = test_app("A");
    app.app_dependency = texts(&["B"]);
    app.mode_dependency = texts(&["Nowhere.On"]);
    let e = app.validate(&default_machine()).err().unwrap();
    assert!(matches!(e, ExecutionManifestError::InvalidApplicationDependencyFormat(_, _)));
}

#[test]
fn only_the_first_dot_splits_a_dependency() {
    let mut app = test_app("A");
    app.app_dependency = texts(&["B.Running.Extra"]);
    let e = app.validate(&default_machine()).err().unwrap();
    assert_eq!(e.to_string(), "Inavlid application dependency: B.Running.Extra for A");
}

#[test]
fn clone_keeps_every_field() {
    let mut app = test_app("SM");
    app.environmental_variable.insert("ENV1".to_string(), "environment variable smaple1".to_string());
    app.argument.insert("ARG1".to_string(), "argument variable1".to_string());
    app.enter_exit_timeout = Some(EnterExitTimeout { enter: 1, exit: 1 });
    app.reporting_behavior = true;
    app.app_dependency = texts(&["UCM.Running", "APP.Running"]);
    app.mode_dependency = texts(&["MachineFG.Startup"]);
    let copy = app.clone();
    assert_eq!(copy.name, "SM");
    assert_eq!(copy.environmental_variable.get("ENV1").unwrap(), "environment variable smaple1");
    assert_eq!(copy.argument.get("ARG1").unwrap(), "argument variable1");
    assert_eq!(copy.enter_exit_timeout, Some(EnterExitTimeout { enter: 1, exit: 1 }));
    assert!(copy.reporting_behavior);
    assert_eq!(copy.app_dependency, app.app_dependency);
    assert_eq!(copy.mode_dependency, app.mode_dependency);
}
