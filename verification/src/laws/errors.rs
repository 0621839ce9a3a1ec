//! What the errors say.

use crate::auth::{self, AuthError};
use crate::eventstore::{self, StoreError};
use crate::executor::{self, DenialReason};
use crate::init::{self, InitError};
use crate::log::{self, LogError};
use crate::server::{self, ReplayError, ServerError};
use crate::session::{self, SessionError};
use crate::text;
use crate::up::{self, UpError};
use vstd::prelude::*;

verus! {

broadcast use vstd::string::group_string_axioms;

/// An error about the tokens says what is wrong with them or with what was presented.
pub proof fn a_token_error_says_what_is_wrong(error: String, path: String, mode: u32)
    ensures
        auth::auth_error_text(AuthError::Io(error)) == "failed to read the token file: "@ + error@,
        auth::auth_error_text(AuthError::Parse(error))
            == "failed to parse the token file: "@ + error@,
        auth::auth_error_text(AuthError::Permissions(path, mode))
            == "the token file "@ + path@ + " is accessible by other users (mode "@
            + auth::octal(mode as nat) + ")"@,
        auth::auth_error_text(AuthError::MissingToken) == "the request is missing a bearer token"@,
        auth::auth_error_text(AuthError::UnknownToken) == "the bearer token is not recognized"@,
        auth::auth_error_text(AuthError::NoAccess)
            == "the bearer token grants no access to the event API"@,
{
}

/// A database that is too new is named with both versions; any other cause is passed on.
pub proof fn a_store_error_names_both_versions(stored: u32, latest: u32, error: String)
    ensures
        eventstore::store_error_text(StoreError::UnsupportedSchema { stored, latest })
            == "event store schema version "@ + text::decimal(stored as nat)
            + " is newer than the supported version "@ + text::decimal(latest as nat),
        eventstore::store_error_text(StoreError::Sql(error)) == error@,
        eventstore::store_error_text(StoreError::Io(error)) == error@,
{
}

/// The reason of a denial is recorded under a code that stays the same.
pub proof fn a_denial_has_a_stable_code()
    ensures
        executor::denial_code(DenialReason::CommandNotAllowed) == "command_not_allowed"@,
        executor::denial_code(DenialReason::CommandCountExceeded) == "command_count_exceeded"@,
{
}

/// The reason of a denial is told in words.
pub proof fn a_denial_says_why()
    ensures
        executor::denial_text(DenialReason::CommandNotAllowed)
            == "command not allowed by the shell policy"@,
        executor::denial_text(DenialReason::CommandCountExceeded) == "command count limit reached"@,
{
}

/// An error of the setup names the path, or passes its cause on.
pub proof fn a_setup_error_names_the_path(error: String, path: String)
    ensures
        init::init_error_text(InitError::Io(error)) == error@,
        init::init_error_text(InitError::Exists(path))
            == path@ + " already exists; pass --force to overwrite it"@,
        init::init_error_text(InitError::InsecureDirectory(path))
            == "the config directory "@ + path@ + " is writable by other users"@,
        init::init_error_text(InitError::Json(error))
            == "failed to encode the token file: "@ + error@,
{
}

/// An error of the log passes its cause on, or says that nothing more is written.
pub proof fn a_log_error_passes_its_cause_on(error: String)
    ensures
        log::log_error_text(LogError::Io(error)) == error@,
        log::log_error_text(LogError::Json(error)) == "event is not valid JSON: "@ + error@,
        log::log_error_text(LogError::WriterStopped) == "the event log writer has stopped"@,
{
}

/// An error of the server names the path, or passes its cause on.
pub proof fn a_server_error_names_the_path(error: String, path: String)
    ensures
        server::server_error_text(ServerError::Io(error)) == error@,
        server::server_error_text(ServerError::AlreadyRunning(path))
            == "another instance is already listening on "@ + path@,
        server::server_error_text(ServerError::InsecureDirectory(path))
            == "the socket directory "@ + path@ + " is writable by other users"@,
{
}

/// An error of a replay says where it failed.
pub proof fn a_replay_error_says_where_it_failed(error: String)
    ensures
        server::replay_error_text(ReplayError::Log(LogError::Io(error))) == error@,
        server::replay_error_text(ReplayError::Log(LogError::Json(error)))
            == "event is not valid JSON: "@ + error@,
        server::replay_error_text(ReplayError::Log(LogError::WriterStopped))
            == "the event log writer has stopped"@,
        server::replay_error_text(ReplayError::Join(error)) == "the replay task failed: "@ + error@,
        server::replay_error_text(ReplayError::Socket(error)) == error@,
{
}

/// An error of the session manager says what failed.
pub proof fn a_session_error_says_what_failed(error: String)
    ensures
        session::session_error_text(SessionError::Sandbox(error))
            == "the session sandbox could not be built: "@ + error@,
        session::session_error_text(SessionError::Log(LogError::Io(error)))
            == "the session log could not be read: "@ + error@,
        session::session_error_text(SessionError::Log(LogError::Json(error)))
            == "the session log could not be read: "@ + ("event is not valid JSON: "@ + error@),
        session::session_error_text(SessionError::Log(LogError::WriterStopped))
            == "the session log could not be read: "@ + "the event log writer has stopped"@,
{
}

/// An error of a launch names what is missing or unusable.
pub proof fn a_launch_error_names_what_is_missing(path: String, error: String)
    ensures
        up::up_error_text(UpError::Workdir(path))
            == "the workspace "@ + path@ + " is not an accessible directory"@,
        up::up_error_text(UpError::MissingAgentToken(path))
            == "the agent token file "@ + path@
            + " does not exist; run `agentd init` to create it"@,
        up::up_error_text(UpError::MissingSessionDir(path))
            == "the session database "@ + path@ + " has no usable parent directory"@,
        up::up_error_text(UpError::MissingAgent)
            == "could not find an `agentd-agent` binary next to this one or on PATH; pass --agent"@,
        up::up_error_text(UpError::NotExecutable(path))
            == "the agent binary "@ + path@ + " is not an executable file"@,
        up::up_error_text(UpError::Policy(error))
            == "the derived sandbox policy is unusable: "@ + error@,
        up::up_error_text(UpError::Io(error)) == error@,
{
}

} // verus!
