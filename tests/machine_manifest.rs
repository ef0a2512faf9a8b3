use oara_em::machine_manifest::{
    default_function_group_set, default_process_mode, FunctionGroupMode, MachineManifest,
    MachineManifestError,
};
use oara_em::string_map::StringMap;

fn texts(items: &[&str]) -> Vec<String> {
    items.iter().map(|s| s.to_string()).collect()
}

fn manifest(process_mode: Vec<String>, groups: Vec<(&str, &str, Vec<String>)>) -> MachineManifest {
    let mut function_group_set = StringMap::new();
    for (name, initial, modes) in groups {
        function_group_set.insert(
            name.to_string(),
            FunctionGroupMode { initial_mode: initial.to_string(), mode: modes },
        );
    }
    MachineManifest {
        default_application_timeout: None,
        environment_variable: StringMap::new(),
        process_mode,
        function_group_set,
    }
}

fn machine_fg() -> (&'static str, &'static str, Vec<String>) {
    ("MachineFG", "Startup", texts(&["Startup", "Shutdown", "Restart"]))
}

#[test]
fn machine_manifest_serialize() {
    let m = manifest(
        texts(&["Running", "Terminated"]),
        vec![
            machine_fg(),
            ("FG1", "Off", texts(&["Off", "On"])),
            ("FG2", "Off", texts(&["Off", "On"])),
        ],
    );
    let m = m.validate().unwrap();
    assert_eq!(m.function_group_set.len(), 3);
    assert_eq!(m.function_group_set.get("FG1").unwrap().mode, texts(&["Off", "On"]));
}

#[test]
fn machine_manifest_default_serialize() {
    let m = MachineManifest {
        default_application_timeout: None,
        environment_variable: StringMap::new(),
        process_mode: default_process_mode(),
        function_group_set: default_function_group_set(),
    };
    let m = m.validate().unwrap();
    assert_eq!(m.process_mode, texts(&["Running", "Terminated"]));
    let fg = m.function_group_set.get("MachineFG").unwrap();
    assert_eq!(fg.initial_mode, "Startup");
    assert_eq!(fg.mode, texts(&["Startup", "Shutdown", "Restart"]));
}

#[test]
fn invalid_process_mode() {
    let m = manifest(texts(&["Ready", "Terminated"]), vec![machine_fg()]);
    assert_eq!(
        m.validate().err().map(|e| e.to_string()).unwrap(),
        String::from("Invalid Process mode(Ready,Terminated)"),
    );
}

#[test]
fn invalid_machine_fg() {
    let m = manifest(
        default_process_mode(),
        vec![("MachineFG", "Shutdown", texts(&["Startup", "Shutdown", "Restart"]))],
    );
    assert_eq!(
        m.validate().err().map(|e| e.to_string()).unwrap(),
        String::from("Invalid initial mode(Shutdown) for MachineFG")
    );

    let m = manifest(
        default_process_mode(),
        vec![("MachineFG", "Startup", texts(&["Startup", "Reboot", "Ready"]))],
    );
    assert_eq!(
        m.validate().err().map(|e| e.to_string()).unwrap(),
        String::from("Invalid mode(Startup,Reboot,Ready) for MachineFG"),
    );
}

#[test]
fn invalid_fg() {
    let m = manifest(
        default_process_mode(),
        vec![machine_fg(), ("FG1", "On", texts(&["Off", "On"]))],
    );
    assert_eq!(
        m.validate().err().map(|e| e.to_string()).unwrap(),
        String::from("Invalid initial mode(On) for FG1"),
    );

    let m = manifest(
        default_process_mode(),
        vec![machine_fg(), ("FG1", "Off", texts(&["Ready", "Go"]))],
    );
    assert_eq!(
        m.validate().err().map(|e| e.to_string()).unwrap(),
        String::from("Invalid mode(Ready,Go) for FG1"),
    );
}

#[test]
fn process_modes_in_any_order_and_repeated_are_accepted() {
    let m = manifest(texts(&["Terminated", "Running", "Running"]), vec![machine_fg()]);
    assert!(m.validate().is_ok());
}

#[test]
fn empty_process_mode_is_rejected() {
    let m = manifest(vec![], vec![machine_fg()]);
    assert!(matches!(m.validate(), Err(MachineManifestError::EmptyProcessMode)));
    assert_eq!(MachineManifestError::EmptyProcessMode.to_string(), "Empty process-mode");
}

#[test]
fn missing_machine_fg_is_rejected() {
    let m = manifest(default_process_mode(), vec![("FG1", "Off", texts(&["Off"]))]);
    let e = m.validate().err().unwrap();
    assert!(matches!(e, MachineManifestError::EmptyMachineFG));
    assert_eq!(e.to_string(), "Empty MachineFG");
}

#[test]
fn process_mode_superset_is_rejected() {
    let m = manifest(texts(&["Running", "Terminated", "Idle"]), vec![machine_fg()]);
    assert_eq!(
        m.validate().err().map(|e| e.to_string()).unwrap(),
        "Invalid Process mode(Running,Terminated,Idle)"
    );
}
