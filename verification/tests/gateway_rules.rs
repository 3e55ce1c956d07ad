use ghidra_accounts::gateway::{
    add_user_outcome, CommandOutcome, ConfigurationError, GhidraServer, ProvisioningError,
};

#[test]
fn construction_fails_without_the_directory() {
    let r = GhidraServer::from_dir(String::from("/srv/ghidra"), false, false);
    assert_eq!(r.err().unwrap(), ConfigurationError::MissingDirectory);
}

#[test]
fn construction_fails_without_the_admin_executable() {
    let r = GhidraServer::from_dir(String::from("/srv/ghidra"), true, false);
    assert_eq!(r.err().unwrap(), ConfigurationError::MissingAdminExecutable);
}

#[test]
fn add_user_runs_the_admin_executable_in_its_directory() {
    let gateway = GhidraServer::from_dir(String::from("/srv/ghidra"), true, true).unwrap();
    let cmd = gateway.add_user_command(&String::from("alice"));
    assert_eq!(cmd.program, "/srv/ghidra/svrAdmin");
    assert_eq!(cmd.working_dir, "/srv/ghidra");
    assert_eq!(cmd.args, vec![String::from("-add"), String::from("alice")]);
}

#[test]
fn a_successful_exit_provisions_the_account() {
    let outcome = CommandOutcome::Exited {
        success: true,
        stdout: String::new(),
        stderr: String::new(),
    };
    assert!(add_user_outcome(outcome).is_ok());
}

#[test]
fn a_failing_exit_carries_the_captured_output() {
    let outcome = CommandOutcome::Exited {
        success: false,
        stdout: String::new(),
        stderr: String::from("user exists"),
    };
    match add_user_outcome(outcome) {
        Err(ProvisioningError::CommandFailed { stdout, stderr }) => {
            assert_eq!(stdout, "");
            assert_eq!(stderr, "user exists");
        }
        other => panic!("expected CommandFailed, got {:?}", other),
    }
}

#[test]
fn a_spawn_failure_is_distinguished() {
    assert_eq!(
        add_user_outcome(CommandOutcome::SpawnError),
        Err(ProvisioningError::SpawnFailed)
    );
}
