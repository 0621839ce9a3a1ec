//! The names and numbers that others rely on.

use crate::bridge;
use crate::events;
use crate::eventstore;
use crate::executor;
use crate::frame;
use crate::init;
use crate::log;
use crate::proxy;
use crate::sandbox;
use crate::seatbelt;
use crate::server;
use crate::session;
use crate::up;
use vstd::prelude::*;

verus! {

broadcast use vstd::string::group_string_axioms;

/// The kinds, paths, and file names that clients and the host know are spelled as
/// they know them.
pub proof fn names_are_spelled_as_they_are_known()
    ensures
        bridge::PROTOCOL_INBOUND@ == "session.protocol.inbound"@,
        bridge::PROTOCOL_OUTBOUND@ == "session.protocol.outbound"@,
        bridge::PROMPT_REQUESTED@ == "session.prompt.requested"@,
        bridge::PROTOCOL_READY@ == "session.protocol.ready"@,
        bridge::PROTOCOL_FAILED@ == "session.protocol.failed"@,
        bridge::PROMPT_COMPLETED@ == "session.prompt.completed"@,
        bridge::PROMPT_FAILED@ == "session.prompt.failed"@,
        bridge::SESSION_PERMISSION_REQUESTED@ == "session.permission.requested"@,
        bridge::SESSION_PERMISSION_GRANTED@ == "session.permission.granted"@,
        bridge::SESSION_PERMISSION_DENIED@ == "session.permission.denied"@,
        bridge::SESSION_PERMISSION_CANCELLED@ == "session.permission.cancelled"@,
        bridge::SUBJECT_PREFIX@ == "session:"@,
        bridge::CLIENT_VERSION@ == "0.1.0"@,
        bridge::MCP_PROTOCOL_VERSION@ == "2024-11-05"@,
        events::SPECVERSION@ == "1.0"@,
        eventstore::LAGGED_KIND@ == "store.lagged"@,
        init::TOKEN_FILE@ == "tokens.json"@,
        init::PROVIDERS_FILE@ == "providers.json"@,
        proxy::EGRESS_REQUESTED@ == "session.egress.requested"@,
        proxy::EGRESS_GRANTED@ == "session.egress.granted"@,
        proxy::EGRESS_DENIED@ == "session.egress.denied"@,
        proxy::EGRESS_CANCELLED@ == "session.egress.cancelled"@,
        proxy::SOCKET_NAME@ == "proxy.sock"@,
        proxy::ESTABLISHED@ == "HTTP/1.1 200 Connection Established\r\n\r\n"@,
        sandbox::PERMISSION_REQUESTED@ == "sandbox.permission.requested"@,
        sandbox::PERMISSION_GRANTED@ == "sandbox.permission.granted"@,
        sandbox::PERMISSION_DENIED@ == "sandbox.permission.denied"@,
        sandbox::EXEC_COMPLETED@ == "sandbox.exec.completed"@,
        seatbelt::SANDBOX_EXEC@ == "/usr/bin/sandbox-exec"@,
        seatbelt::BASH@ == "/bin/bash"@,
        server::DAEMON_CAUGHT_UP@ == "daemon.caught_up"@,
        session::SESSION_REQUESTED@ == "session.requested"@,
        session::SESSION_STATUS_REQUESTED@ == "session.status.requested"@,
        session::SESSION_STARTED@ == "session.started"@,
        session::SESSION_RESTARTED@ == "session.restarted"@,
        session::SESSION_EXITED@ == "session.exited"@,
        session::SESSION_FAILED@ == "session.failed"@,
        session::SESSION_STATUS@ == "session.status"@,
        up::SESSION_AGENT_ID@ == "urn:mokmokd:session"@,
        up::AGENT_BINARY@ == "agentd-agent"@,
{
}

/// The limits, modes, and codes are those that clients and the host count on.
pub proof fn numbers_are_those_that_are_counted_on()
    ensures
        bridge::ACP_PROTOCOL_VERSION == 1,
        eventstore::QUEUE_CAPACITY == 1024,
        executor::EXIT_CANNOT_EXECUTE == 126,
        frame::MAX_FRAME_BYTES == 65536,
        log::MAX_BATCH_EVENTS == 1024,
        log::DEFAULT_CAPACITY == 1024,
        log::NEWLINE == 10,
        proxy::MAX_HEADER_BYTES == 16384,
        proxy::HANDSHAKE_TIMEOUT_SECS == 10,
        proxy::MAX_CONNECTIONS == 256,
        proxy::FORWARD_PORT == 31828,
        seatbelt::EXIT_TIMED_OUT == 124,
        seatbelt::SIGKILL_EXIT == 137,
        server::REPLAY_CHUNK == 256,
        server::PRIVATE_DIRECTORY_MODE == 0o700,
        server::PRIVATE_FILE_MODE == 0o600,
        server::UNAUTHORIZED == 401,
        server::FORBIDDEN == 403,
        server::OTHERS_WRITE == 0o022,
        session::FLUSH_GRACE_MS == 2000,
        up::SESSION_ANNOUNCE_TIMEOUT_SECS == 5,
        up::ANYONE_EXECUTES == 0o111,
{
}

} // verus!
