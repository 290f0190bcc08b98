use winsudo::error::{ErrorKind, EXIT_LAUNCH_FAILED, EXIT_USAGE};
use winsudo::launcher::{check_os_error, final_exit_code, next_step, wstr, Step};
use winsudo::request::ElevationRequest;
use winsudo::tokenizer::Opts;

fn wide(s: &str) -> Vec<u16> {
    s.encode_utf16().collect()
}

fn text(units: &[u16]) -> String {
    String::from_utf16(units).unwrap()
}

fn args(items: &[&str]) -> Vec<Vec<u16>> {
    items.iter().map(|s| wide(s)).collect()
}

#[test]
fn no_arguments_shows_usage_and_exits_1() {
    for line in ["sudo.exe", "sudo.exe   ", "\"C:\\sudo.exe\"", ""] {
        let step = next_step(&wide(line));
        assert!(matches!(step, Step::ShowUsage));
        assert_eq!(step.early_exit(), Some(1));
    }
}

#[test]
fn help_shows_usage_whatever_follows() {
    for line in ["sudo --help", "sudo -h", "sudo --help whoami /priv", "sudo -h -- --attach-id 1 x,"] {
        let step = next_step(&wide(line));
        assert!(matches!(step, Step::ShowUsage));
        assert_eq!(step.early_exit(), Some(1));
    }
}

#[test]
fn double_dash_then_option_like_command_is_elevated() {
    match next_step(&wide("sudo -- -h")) {
        Step::Elevate(command) => assert_eq!(text(&command), "-h"),
        other => panic!("unexpected step {:?}", other),
    }
}

#[test]
fn command_without_attach_id_is_elevated_verbatim() {
    let step = next_step(&wide("sudo.exe whoami /priv"));
    assert_eq!(step.early_exit(), None);
    match step {
        Step::Elevate(command) => assert_eq!(text(&command), "whoami /priv"),
        other => panic!("unexpected step {:?}", other),
    }
}

#[test]
fn unknown_option_is_rejected_with_exit_1() {
    let step = next_step(&wide("sudo --frobnicate dir"));
    assert!(matches!(step, Step::Reject(ErrorKind::InvalidOption)));
    assert_eq!(step.early_exit(), Some(1));
}

#[test]
fn attach_id_with_encoded_notepad_is_worker_step() {
    let mut line = wide("sudo.exe --attach-id 1234 ");
    line.extend(winsudo::codec::encode(&args(&["notepad.exe"])));
    let step = next_step(&line);
    assert_eq!(step.early_exit(), None);
    match step {
        Step::Work(request) => {
            assert_eq!(request.requester_pid, 1234);
            assert_eq!(text(&request.target_executable), "notepad.exe");
            assert!(request.target_args.is_empty());
        }
        other => panic!("unexpected step {:?}", other),
    }
}

#[test]
fn attach_id_with_undecodable_command_is_usage_error() {
    let step = next_step(&wide("sudo.exe --attach-id 1234 notepad.exe"));
    assert!(matches!(step, Step::Reject(ErrorKind::UsageError)));
    assert_eq!(step.early_exit(), Some(1));
    let step = next_step(&wide("sudo.exe --attach-id x notepad.exe,"));
    assert!(matches!(step, Step::Reject(ErrorKind::UsageError)));
}

#[test]
fn attach_id_without_command_shows_usage() {
    let step = next_step(&wide("sudo.exe --attach-id 1234"));
    assert!(matches!(step, Step::ShowUsage));
}

#[test]
fn request_parameters_exact() {
    let request = ElevationRequest {
        requester_pid: 1234,
        target_executable: wide("notepad.exe"),
        target_args: args(&["a b", ""]),
    };
    assert_eq!(text(&request.to_parameters()), "--attach-id 1234 notepad.exe,a%0020b,,");
}

#[test]
fn request_survives_the_wire() {
    let request = ElevationRequest {
        requester_pid: 4294967295,
        target_executable: wide("C:\\Program Files\\x y\\tool.exe"),
        target_args: args(&["--flag", "two words", "\"quoted\"", "", "a,b", "50%"]),
    };
    let mut line = wide("\"C:\\bin\\sudo.exe\" ");
    line.extend(request.to_parameters());
    match next_step(&line) {
        Step::Work(got) => {
            assert_eq!(got.requester_pid, request.requester_pid);
            assert_eq!(got.target_executable, request.target_executable);
            assert_eq!(got.target_args, request.target_args);
        }
        other => panic!("unexpected step {:?}", other),
    }
}

#[test]
fn request_from_argv() {
    let r = ElevationRequest::from_argv(9, args(&["whoami", "/priv"])).unwrap();
    assert_eq!(r.requester_pid, 9);
    assert_eq!(text(&r.target_executable), "whoami");
    assert_eq!(r.target_args, args(&["/priv"]));
    assert_eq!(text(&r.to_parameters()), "--attach-id 9 whoami,%002Fpriv,");
}

#[test]
fn request_from_empty_argv_is_usage_error() {
    assert!(matches!(ElevationRequest::from_argv(9, Vec::new()), Err(ErrorKind::UsageError)));
}

#[test]
fn request_from_opts_needs_attach_id() {
    let command = wide("notepad.exe,");
    let opts = Opts { line: &[], command: &command, help: false, attach_id: None };
    assert!(matches!(ElevationRequest::from_opts(&opts), Err(ErrorKind::UsageError)));
    let opts = Opts { line: &[], command: &command, help: false, attach_id: Some(5) };
    let r = ElevationRequest::from_opts(&opts).unwrap();
    assert_eq!(r.requester_pid, 5);
    assert_eq!(text(&r.target_executable), "notepad.exe");
    let empty: Vec<u16> = Vec::new();
    let opts = Opts { line: &[], command: &empty, help: false, attach_id: Some(5) };
    assert!(matches!(ElevationRequest::from_opts(&opts), Err(ErrorKind::UsageError)));
}

#[test]
fn exit_code_is_the_childs_code() {
    assert_eq!(final_exit_code(Ok(0)), 0);
    assert_eq!(final_exit_code(Ok(3)), 3);
    assert_eq!(final_exit_code(Ok(9009)), 9009);
    assert_eq!(final_exit_code(Ok(4294967295)), 4294967295);
}

#[test]
fn elevation_failure_exits_9009() {
    let launched = check_os_error(false, ErrorKind::ElevationFailure);
    assert_eq!(launched, Err(ErrorKind::ElevationFailure));
    assert_eq!(final_exit_code(launched.map(|_| 0)), 9009);
}

#[test]
fn process_creation_failure_exits_9009() {
    let launched = check_os_error(false, ErrorKind::ProcessCreationFailure);
    assert_eq!(final_exit_code(launched.map(|_| 0)), 9009);
}

#[test]
fn check_os_error_passes_success() {
    assert_eq!(check_os_error(true, ErrorKind::ElevationFailure), Ok(()));
}

#[test]
fn exit_codes_of_error_kinds() {
    assert_eq!(EXIT_USAGE, 1);
    assert_eq!(EXIT_LAUNCH_FAILED, 9009);
    assert_eq!(ErrorKind::UsageError.exit_code(), 1);
    assert_eq!(ErrorKind::InvalidOption.exit_code(), 1);
    assert_eq!(ErrorKind::ElevationFailure.exit_code(), 9009);
    assert_eq!(ErrorKind::ProcessCreationFailure.exit_code(), 9009);
    assert_eq!(ErrorKind::AttachFailure.exit_code(), 9009);
}

#[test]
fn only_attach_failure_is_not_fatal() {
    assert!(!ErrorKind::AttachFailure.is_fatal());
    assert!(ErrorKind::UsageError.is_fatal());
    assert!(ErrorKind::InvalidOption.is_fatal());
    assert!(ErrorKind::ElevationFailure.is_fatal());
    assert!(ErrorKind::ProcessCreationFailure.is_fatal());
}

#[test]
fn wstr_appends_nul() {
    assert_eq!(wstr(&wide("runas")), vec![0x72, 0x75, 0x6E, 0x61, 0x73, 0]);
    assert_eq!(wstr(&[]), vec![0]);
}

#[test]
fn worker_receives_what_requester_sent() {
    let request = ElevationRequest::from_argv(4321, args(&["whoami", "/priv"])).unwrap();
    let mut line = wide("C:\\bin\\sudo.exe ");
    line.extend(request.to_parameters());
    match next_step(&line) {
        Step::Work(got) => {
            assert_eq!(got.requester_pid, 4321);
            assert_eq!(text(&got.target_executable), "whoami");
            assert_eq!(got.target_args, args(&["/priv"]));
        }
        other => panic!("unexpected step {:?}", other),
    }
}
