//! The provisioning gateway: validated location of the external
//! administration executable, the exact command an account creation runs,
//! and the meaning of that command's outcome.
//!
//! The executable itself is not safe for concurrent administrative
//! operations, so the shell around this library keeps the gateway behind a
//! mutual exclusion lock and holds the lock for the whole invocation; it
//! also performs the filesystem checks and the process spawn, and reports
//! their results as the plain values these functions take.

use vstd::prelude::*;
use vstd::string::StringExecFns;

verus! {

/// Startup failed: the external administration directory or its executable
/// is missing.
#[derive(Debug, PartialEq, Eq)]
pub enum ConfigurationError {
    /// The server directory does not exist.
    MissingDirectory,
    /// The directory exists but holds no administration executable.
    MissingAdminExecutable,
}

/// Why an account could not be provisioned.
#[derive(Debug, PartialEq, Eq)]
pub enum ProvisioningError {
    /// The external process could not be launched at all.
    SpawnFailed,
    /// The external tool ran and reported failure; its captured output is
    /// kept for server-side diagnostics and must not be shown to end users.
    CommandFailed { stdout: String, stderr: String },
}

/// What the shell observed of one invocation of the administration command.
pub enum CommandOutcome {
    /// The process could not be spawned.
    SpawnError,
    /// The process ran to completion.
    Exited { success: bool, stdout: String, stderr: String },
}

/// One invocation of the administration executable, ready to be spawned:
/// the program, its working directory, and its arguments.
pub struct AdminCommand {
    pub program: String,
    pub working_dir: String,
    pub args: Vec<String>,
}

/// The gateway to the external administrative subsystem: it owns the
/// validated path of the administration executable.
pub struct GhidraServer {
    server_dir: String,
    admin_path: String,
}

impl GhidraServer {
    /// The validated server directory.
    pub closed spec fn spec_server_dir(&self) -> Seq<char> {
        self.server_dir@
    }

    /// The validated path of the administration executable.
    pub closed spec fn spec_admin_path(&self) -> Seq<char> {
        self.admin_path@
    }

    /// Builds a gateway for the server installed in `dir`. The caller
    /// reports whether the directory and the administration executable at
    /// [`Self::admin_path_in`]`(dir)` exist; construction fails unless both
    /// do.
    pub fn from_dir(dir: String, dir_exists: bool, admin_exists: bool) -> (r: Result<
        GhidraServer,
        ConfigurationError,
    >)
        ensures
            r is Ok <==> dir_exists && admin_exists,
            (r matches Ok(g) ==> g.spec_server_dir() == dir@ && g.spec_admin_path()
                == Self::admin_path_in(dir@)),
            !dir_exists ==> r == Err::<GhidraServer, _>(ConfigurationError::MissingDirectory),
            dir_exists && !admin_exists ==> r == Err::<GhidraServer, _>(
                ConfigurationError::MissingAdminExecutable,
            ),
    {
        if !dir_exists {
            Err(ConfigurationError::MissingDirectory)
        } else if !admin_exists {
            Err(ConfigurationError::MissingAdminExecutable)
        } else {
            let admin_path = Self::admin_path_of(&dir);
            Ok(GhidraServer { server_dir: dir, admin_path })
        }
    }

    /// Where the administration executable lives inside a server directory.
    pub open spec fn admin_path_in(dir: Seq<char>) -> Seq<char> {
        dir + "/svrAdmin"@
    }

    /// The path of the administration executable inside `dir`.
    pub fn admin_path_of(dir: &String) -> (r: String)
        ensures
            r@ == Self::admin_path_in(dir@),
    {
        let r = dir.clone().concat("/svrAdmin");
        r
    }

    /// The command that creates the account `username` on the external
    /// system: the administration executable, run in its own directory,
    /// with arguments `-add <username>`.
    ///
    /// The caller must have validated that the username is non-empty; the
    /// command passes it through as a single argument.
    pub fn add_user_command(&self, username: &String) -> (c: AdminCommand)
        requires
            username@.len() > 0,
        ensures
            c.program@ == self.spec_admin_path(),
            c.working_dir@ == self.spec_server_dir(),
            c.args@.len() == 2,
            c.args@[0]@ == "-add"@,
            c.args@[1]@ == username@,
    {
        let mut args: Vec<String> = Vec::new();
        args.push(String::from_str("-add"));
        args.push(username.clone());
        AdminCommand {
            program: self.admin_path.clone(),
            working_dir: self.server_dir.clone(),
            args,
        }
    }
}

/// What one run of the administration command means for the caller:
/// success exactly when the process ran and exited successfully; a spawn
/// failure and a reported failure are distinguished, and the captured
/// output travels with the latter.
pub fn add_user_outcome(outcome: CommandOutcome) -> (r: Result<(), ProvisioningError>)
    ensures
        r is Ok <==> (outcome matches CommandOutcome::Exited { success: true, .. }),
        (outcome matches CommandOutcome::SpawnError ==> r == Err::<(), _>(
            ProvisioningError::SpawnFailed,
        )),
        (outcome matches CommandOutcome::Exited { success: false, stdout, stderr } ==> (
        r matches Err(ProvisioningError::CommandFailed { stdout: out, stderr: err })
            && out@ == stdout@ && err@ == stderr@)),
{
    match outcome {
        CommandOutcome::SpawnError => Err(ProvisioningError::SpawnFailed),
        CommandOutcome::Exited { success, stdout, stderr } => {
            if success {
                Ok(())
            } else {
                Err(ProvisioningError::CommandFailed { stdout, stderr })
            }
        },
    }
}

} // verus!
