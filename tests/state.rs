use oara_em::execution_manifest::ExecutionManifest;
use oara_em::function_group::{get_machine_fg_state, FunctionGroupState};
use oara_em::group::group;
use oara_em::machine_manifest::{default_function_group_set, default_process_mode, FunctionGroupMode, MachineManifest};
use oara_em::protocol::{
    decode_frame, encode_frame, ClientReply, ConnectionState, InitialStateError, SetStateError,
    SmClientCommand, SmResponse, StateClient,
};
use oara_em::state_manager::{get_intial_state, handle_command, set_intial_state, set_state, StateRegistry};
use oara_em::string_map::StringMap;

fn machine() -> MachineManifest {
    let mut function_group_set = default_function_group_set();
    function_group_set.insert(
        "FG1".to_string(),
        FunctionGroupMode { initial_mode: "Off".to_string(), mode: vec!["Off".to_string(), "On".to_string()] },
    );
    MachineManifest {
        default_application_timeout: None,
        environment_variable: StringMap::new(),
        process_mode: default_process_mode(),
        function_group_set,
    }
}

fn registry() -> StateRegistry {
    let machine = machine();
    let apps: Vec<ExecutionManifest> = vec![];
    let table = group(&machine, &apps).unwrap();
    StateRegistry::new(&machine, table)
}

#[test]
fn registry_starts_in_initial_modes() {
    let r = registry();
    assert_eq!(r.current.get("MachineFG").unwrap(), "Startup");
    assert_eq!(r.current.get("FG1").unwrap(), "Off");
    assert!(r.initial_state.is_none());
}

#[test]
fn set_state_records_the_new_mode() {
    let mut r = registry();
    let target = FunctionGroupState::new("FG1".to_string(), "On".to_string());
    assert_eq!(set_state(&mut r, &target), Ok(()));
    assert_eq!(r.current.get("FG1").unwrap(), "On");
    assert_eq!(r.current.get("MachineFG").unwrap(), "Startup");
}

#[test]
fn unknown_state_is_a_metamodel_error() {
    let mut r = registry();
    let unknown_mode = FunctionGroupState::new("FG1".to_string(), "Verify".to_string());
    assert_eq!(set_state(&mut r, &unknown_mode), Err(SetStateError::MetamodelError));
    let unknown_group = FunctionGroupState::new("MachineFg".to_string(), "Startup".to_string());
    assert_eq!(set_state(&mut r, &unknown_group), Err(SetStateError::MetamodelError));
    assert_eq!(r.current.get("FG1").unwrap(), "Off");
}

#[test]
fn initial_state_query_is_repeatable() {
    let mut r = registry();
    let startup = set_state(&mut r, &get_machine_fg_state("Startup"));
    assert!(startup.is_ok());
    set_intial_state(&mut r, startup.is_ok());
    assert!(get_intial_state(&r));
    let first = handle_command(&mut r, &SmClientCommand::GetInitialState);
    let second = handle_command(&mut r, &SmClientCommand::GetInitialState);
    assert_eq!(first, SmResponse::GetInitialState(Ok(())));
    assert_eq!(second, SmResponse::GetInitialState(Ok(())));
}

#[test]
fn failed_initial_state_is_reported() {
    let mut r = registry();
    let reply = handle_command(&mut r, &SmClientCommand::GetInitialState);
    assert_eq!(reply, SmResponse::GetInitialState(Err(InitialStateError::FailedInitializeInitialState)));
    set_intial_state(&mut r, false);
    assert!(!get_intial_state(&r));
    let reply = handle_command(&mut r, &SmClientCommand::GetInitialState);
    assert_eq!(reply, SmResponse::GetInitialState(Err(InitialStateError::FailedInitializeInitialState)));
}

#[test]
fn set_state_command_is_answered() {
    let mut r = registry();
    let cmd = SmClientCommand::SetState(FunctionGroupState::new("FG1".to_string(), "On".to_string()));
    assert_eq!(handle_command(&mut r, &cmd), SmResponse::SetState(Ok(())));
    let cmd = SmClientCommand::SetState(FunctionGroupState::new("FG2".to_string(), "On".to_string()));
    assert_eq!(handle_command(&mut r, &cmd), SmResponse::SetState(Err(SetStateError::MetamodelError)));
}

#[test]
fn machine_fg_state_names_the_reserved_group() {
    let s = get_machine_fg_state("Startup");
    assert_eq!(s, FunctionGroupState::new("MachineFG".to_string(), "Startup".to_string()));
}

#[test]
fn frame_round_trip() {
    let payload: Vec<u8> = vec![1, 0, 0, 0, 9, 0, 0, 0, 0, 0, 0, 0];
    let mut framed = encode_frame(&payload);
    assert_eq!(&framed[..4], &[12u8, 0, 0, 0]);
    framed.push(77);
    let (decoded, used) = decode_frame(&framed).unwrap();
    assert_eq!(decoded, payload);
    assert_eq!(used, 16);
}

#[test]
fn frame_length_uses_all_four_bytes() {
    let payload: Vec<u8> = vec![5u8; 300];
    let framed = encode_frame(&payload);
    assert_eq!(&framed[..4], &[44u8, 1, 0, 0]);
    assert_eq!(framed.len(), 304);
    assert_eq!(decode_frame(&framed).unwrap().0.len(), 300);
}

#[test]
fn incomplete_frame_waits_for_more() {
    assert!(decode_frame(&vec![3, 0, 0]).is_none());
    assert!(decode_frame(&vec![3, 0, 0, 0, 1, 2]).is_none());
    assert_eq!(decode_frame(&vec![0, 0, 0, 0]).unwrap(), (vec![], 4));
}

#[test]
fn timeout_is_a_communication_error() {
    let mut client = StateClient::new();
    client.connected();
    assert_eq!(
        client.get_initial_machine_state_transition_result(ClientReply::TimedOut),
        Err(InitialStateError::CommunicationError)
    );
    assert_eq!(client.connection, ConnectionState::Broken);
    assert!(client.request_initial_state().is_err());

    let mut client = StateClient::new();
    client.connected();
    assert_eq!(client.set_state(ClientReply::TimedOut), Err(SetStateError::CommunicationError));
    let target = FunctionGroupState::new("MachineFg".to_string(), "Startup".to_string());
    assert_eq!(client.request_set_state(&target).err(), Some(SetStateError::CommunicationError));
}

#[test]
fn answers_are_passed_on() {
    let mut client = StateClient::new();
    assert!(client.request_initial_state().is_err());
    client.connected();
    assert!(matches!(client.request_initial_state(), Ok(SmClientCommand::GetInitialState)));
    let reply = ClientReply::Received(SmResponse::GetInitialState(Err(InitialStateError::FailedInitializeInitialState)));
    assert_eq!(
        client.get_initial_machine_state_transition_result(reply),
        Err(InitialStateError::FailedInitializeInitialState)
    );
    assert_eq!(client.connection, ConnectionState::Connected);
    let target = FunctionGroupState::new("MachineFg".to_string(), "Startup".to_string());
    match client.request_set_state(&target) {
        Ok(SmClientCommand::SetState(s)) => assert_eq!(s, target),
        _ => panic!("expected a set-state request"),
    }
    assert_eq!(client.set_state(ClientReply::Received(SmResponse::SetState(Ok(())))), Ok(()));
    assert_eq!(client.set_state(ClientReply::Received(SmResponse::SetState(Err(SetStateError::Failed)))), Err(SetStateError::Failed));
}

#[test]
fn mismatched_answer_is_a_communication_error() {
    let mut client = StateClient::new();
    client.connected();
    let reply = ClientReply::Received(SmResponse::SetState(Ok(())));
    assert_eq!(
        client.get_initial_machine_state_transition_result(reply),
        Err(InitialStateError::CommunicationError)
    );
    let mut client = StateClient::new();
    client.connected();
    assert_eq!(client.set_state(ClientReply::Undecodable), Err(SetStateError::CommunicationError));
    let mut client = StateClient::new();
    client.connected();
    assert_eq!(client.set_state(ClientReply::ReadFailed), Err(SetStateError::CommunicationError));
}

#[test]
fn newer_transition_cancels_the_one_in_flight() {
    let mut r = registry();
    let on = FunctionGroupState::new("FG1".to_string(), "On".to_string());
    let (first, cancelled) = r.begin_transition(&on).unwrap();
    assert_eq!(cancelled, None);
    let (second, cancelled) = r.begin_transition(&on).unwrap();
    assert_eq!(cancelled, Some(first));
    assert_ne!(first, second);
    assert_eq!(r.complete_transition(first, true), Err(SetStateError::Canceled));
    assert_eq!(r.current.get("FG1").unwrap(), "Off");
    assert_eq!(r.complete_transition(second, true), Ok(()));
    assert_eq!(r.current.get("FG1").unwrap(), "On");
    assert!(r.in_flight.is_none());
}

#[test]
fn failed_transition_keeps_the_mode() {
    let mut r = registry();
    let on = FunctionGroupState::new("FG1".to_string(), "On".to_string());
    let (ticket, _) = r.begin_transition(&on).unwrap();
    assert_eq!(r.complete_transition(ticket, false), Err(SetStateError::Failed));
    assert_eq!(r.current.get("FG1").unwrap(), "Off");
    assert_eq!(r.complete_transition(ticket, true), Err(SetStateError::Canceled));
    let unknown = FunctionGroupState::new("FG1".to_string(), "Verify".to_string());
    assert_eq!(r.begin_transition(&unknown).err(), Some(SetStateError::MetamodelError));
}
