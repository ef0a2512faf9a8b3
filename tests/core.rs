use oara_em::application::ProcessState;
use oara_em::ara_core::{deinitialize, initalize, is_platform_initialized, ErrorDomain, Platform};
use oara_em::argument::{parse, ArgumentError, EMArgument};
use oara_em::instance_specifier::{InstanceSpecifier, InstanceSpecifierError};

#[test]
fn platform_initialization_flag() {
    let mut p = Platform::new();
    assert!(!is_platform_initialized(&p));
    assert!(initalize(&mut p).is_ok());
    assert!(is_platform_initialized(&p));
    assert!(deinitialize(&mut p).is_ok());
    assert!(!is_platform_initialized(&p));
}

#[test]
fn error_domain_keeps_its_id() {
    assert_eq!(ErrorDomain::new(0x8000_0000_0000_0014).id(), 0x8000_0000_0000_0014);
}

#[test]
fn instance_specifier_accepts_short_name_paths() {
    let s = InstanceSpecifier::new("Exe.A/Root.B/Sock.C").unwrap();
    assert_eq!(s.as_str(), "Exe.A/Root.B/Sock.C");
    assert!(InstanceSpecifier::create("Pkg.Name").is_ok());
}

#[test]
fn instance_specifier_rejects_empty_elements() {
    for bad in ["", "/Pkg.Name", "Pkg.Name/", "A.B//C.D"] {
        match InstanceSpecifier::new(bad) {
            Err(InstanceSpecifierError::InvalidMetaModelPath(t)) => assert_eq!(t, bad),
            _ => panic!("expected a path error for {:?}", bad),
        }
    }
}

#[test]
fn instance_specifier_rejects_bad_short_names() {
    for bad in ["PkgName", "A.B.C", "A.B/CD", "A.B/C..D"] {
        match InstanceSpecifier::new(bad) {
            Err(InstanceSpecifierError::InvalidMetaModelShortname(t)) => assert_eq!(t, bad),
            _ => panic!("expected a short-name error for {:?}", bad),
        }
    }
    assert!(matches!(
        InstanceSpecifier::new("AB//C.D"),
        Err(InstanceSpecifierError::InvalidMetaModelShortname(_))
    ));
}

fn args(rw: &str) -> EMArgument {
    EMArgument {
        ro_oara_root: "/usr/bin/oara".to_string(),
        rw_oara_root: rw.to_string(),
        config: "/etc/oara".to_string(),
    }
}

#[test]
fn argument_paths_are_checked_in_order() {
    assert!(parse(args(""), true, false, true).is_ok());
    assert!(parse(args("/opt/oara"), true, true, true).is_ok());
    match parse(args("/opt/oara"), false, false, false) {
        Err(ArgumentError::InvalidROOARARoot(p)) => assert_eq!(p, "/usr/bin/oara"),
        _ => panic!("expected the read-only root"),
    }
    match parse(args("/opt/oara"), true, false, false) {
        Err(ArgumentError::InvalidRWOARARoot(p)) => assert_eq!(p, "/opt/oara"),
        _ => panic!("expected the read-write root"),
    }
    match parse(args(""), true, false, false) {
        Err(ArgumentError::InvalidOARAConfig(p)) => assert_eq!(p, "/etc/oara"),
        _ => panic!("expected the configuration path"),
    }
}

#[test]
fn process_states_are_distinct() {
    assert_ne!(ProcessState::Idle, ProcessState::Running);
}
