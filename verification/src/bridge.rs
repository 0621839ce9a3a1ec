//! The protocol-conversion layer between a supervised child process and the
//! event log.
//!
//! A third-party tool speaks its own protocol over stdio; it does not speak
//! events. A [`Protocol`] is a factory shared across sessions; it creates one
//! stateful [`Bridge`] per supervised child. The bridge turns the child's
//! output lines and the events routed to it into [`Action`]s, events to append
//! or lines to write, and the session manager performs them.
//!
//! Two protocols ship: `mcp` ([`McpProtocol`]), the Model Context Protocol over
//! stdio, a line protocol with no real state; and `acp` ([`AcpProtocol`]), the
//! Agent Client Protocol, a client-side state machine that negotiates a session
//! and answers the agent's permission requests over the log.

use crate::events::{event_of, Event, EventValue};
use crate::json::{self, Json, JsonValue};
use crate::text;
use crate::textmap::TextMap;
use std::collections::HashMap;
use vstd::prelude::*;

verus! {

broadcast use {
    vstd::string::group_string_axioms,
    vstd::std_specs::hash::group_hash_axioms,
};

/// The event type carrying one inbound protocol message, from a bridged child
/// to the log.
pub const PROTOCOL_INBOUND: &'static str = "session.protocol.inbound";

/// The event type carrying one outbound protocol message.
///
/// It is the log-to-child direction, and is distinct from [`PROTOCOL_INBOUND`]
/// so an inbound message is never routed straight back to the child that
/// produced it.
pub const PROTOCOL_OUTBOUND: &'static str = "session.protocol.outbound";

/// A client asks a bridged child to start a prompt turn.
pub const PROMPT_REQUESTED: &'static str = "session.prompt.requested";

/// The protocol handshake completed; the child accepts prompts.
pub const PROTOCOL_READY: &'static str = "session.protocol.ready";

/// The protocol handshake failed, so the child cannot be driven at all.
pub const PROTOCOL_FAILED: &'static str = "session.protocol.failed";

/// A prompt turn ended, carrying its stop reason.
pub const PROMPT_COMPLETED: &'static str = "session.prompt.completed";

/// A prompt turn failed: the child answered the prompt with an error.
pub const PROMPT_FAILED: &'static str = "session.prompt.failed";

/// A bridged child asks for permission to run a tool call.
pub const SESSION_PERMISSION_REQUESTED: &'static str = "session.permission.requested";

/// An approver allows the request, selecting one of the options the child
/// offered.
pub const SESSION_PERMISSION_GRANTED: &'static str = "session.permission.granted";

/// An approver refuses the request, selecting a rejecting option when the child
/// offered one.
pub const SESSION_PERMISSION_DENIED: &'static str = "session.permission.denied";

/// Nobody decided the request in time, so it was withdrawn.
pub const SESSION_PERMISSION_CANCELLED: &'static str = "session.permission.cancelled";

/// The decisions that end a permission request. Exactly one of them follows a
/// request, so a consumer of one kind must be one of all three.
pub const SESSION_PERMISSION_DECISIONS: [&'static str; 3] = [
    SESSION_PERMISSION_GRANTED,
    SESSION_PERMISSION_DENIED,
    SESSION_PERMISSION_CANCELLED,
];

/// The prefix of a bridged event's `subject`, addressing one session's child.
pub const SUBJECT_PREFIX: &'static str = "session:";

/// The version the client announces of itself.
pub const CLIENT_VERSION: &'static str = "0.1.0";

/// The MCP revision announced by default.
pub const MCP_PROTOCOL_VERSION: &'static str = "2024-11-05";

/// The ACP major version announced by default.
pub const ACP_PROTOCOL_VERSION: u16 = 1;

/// Whether a kind is one of the three outcomes a permission request may be
/// answered with.
pub open spec fn is_decision(kind: Seq<char>) -> bool {
    kind == SESSION_PERMISSION_GRANTED@ || kind == SESSION_PERMISSION_DENIED@ || kind
        == SESSION_PERMISSION_CANCELLED@
}

/// Whether `kind` is one of the three outcomes a permission request may be
/// answered with.
#[must_use]
pub fn is_permission_decision(kind: &str) -> (r: bool)
    ensures
        r == is_decision(kind@),
{
    text::same(kind, SESSION_PERMISSION_GRANTED) || text::same(kind, SESSION_PERMISSION_DENIED)
        || text::same(kind, SESSION_PERMISSION_CANCELLED)
}

/// The kinds that end a permission request are the listed ones.
pub proof fn decisions_are_the_listed_kinds(kind: Seq<char>)
    ensures
        is_decision(kind) <==> exists|i: int|
            0 <= i < 3 && (#[trigger] SESSION_PERMISSION_DECISIONS@[i])@ == kind,
{
    let listed = SESSION_PERMISSION_DECISIONS@;
    assert(listed[0] == SESSION_PERMISSION_GRANTED);
    assert(listed[1] == SESSION_PERMISSION_DENIED);
    assert(listed[2] == SESSION_PERMISSION_CANCELLED);
}

/// A string value.
pub open spec fn jtext(text: Seq<char>) -> JsonValue {
    JsonValue::Text(text)
}

/// An unsigned integer value.
pub open spec fn jnumber(n: u64) -> JsonValue {
    JsonValue::Number(text::decimal(n as nat))
}

impl JsonValue {
    /// The value with a field set.
    pub open spec fn set(self, name: Seq<char>, value: JsonValue) -> JsonValue {
        json::with_field(self, name, value)
    }
}

/// The event that asks a bridged agent for a turn.
pub open spec fn prompt_event(blocks: JsonValue) -> EventValue {
    event_of(
        PROMPT_REQUESTED@,
        json::empty_object().set("protocol"@, jtext("acp"@)).set("prompt"@, blocks),
    )
}

/// A client asks a bridged agent to start a prompt turn with `blocks` (ACP
/// content blocks, e.g. `[{"type":"text","text":"hi"}]`).
#[must_use]
pub fn prompt_requested(blocks: &Json) -> (r: Event)
    ensures
        r@ == event_of(
            PROMPT_REQUESTED@,
            json::empty_object().set("protocol"@, jtext("acp"@)).set("prompt"@, blocks@),
        ),
        r@ == prompt_event(blocks@),
{
    Event::new(
        PROMPT_REQUESTED,
        Json::object().with("protocol", Json::text("acp")).with("prompt", blocks.clone()),
    )
}

/// The data of a decision that selected an option.
pub open spec fn decision_data(
    request_id: Seq<char>,
    decision: Seq<char>,
    option_id: Seq<char>,
) -> JsonValue {
    json::empty_object().set("request_id"@, jtext(request_id)).set(
        "decision"@,
        jtext(decision),
    ).set("option_id"@, jtext(option_id))
}

fn decision_json(request_id: &str, decision: &str, option_id: &str) -> (r: Json)
    ensures
        r@ == decision_data(request_id@, decision@, option_id@),
{
    Json::object().with("request_id", Json::text(request_id)).with(
        "decision",
        Json::text(decision),
    ).with("option_id", Json::text(option_id))
}

/// The event by which an approver allows a tool call.
pub open spec fn granted_event(request_id: Seq<char>, option_id: Seq<char>) -> EventValue {
    event_of(SESSION_PERMISSION_GRANTED@, decision_data(request_id, "granted"@, option_id))
}

/// The event by which an approver refuses a tool call.
pub open spec fn denied_event(request_id: Seq<char>, option_id: Seq<char>) -> EventValue {
    event_of(SESSION_PERMISSION_DENIED@, decision_data(request_id, "denied"@, option_id))
}

/// The event that withdraws a request that nobody decided.
pub open spec fn withdrawn_event(request_id: Seq<char>) -> EventValue {
    event_of(
        SESSION_PERMISSION_CANCELLED@,
        json::empty_object().set("request_id"@, jtext(request_id)).set(
            "decision"@,
            jtext("cancelled"@),
        ).set("cancelled"@, JsonValue::Bool(true)),
    )
}

/// An approver allows the tool call `request_id` with `option_id`, the id of
/// one of the options the child offered.
#[must_use]
pub fn permission_granted(request_id: &str, option_id: &str) -> (r: Event)
    ensures
        r@ == event_of(
            SESSION_PERMISSION_GRANTED@,
            decision_data(request_id@, "granted"@, option_id@),
        ),
        r@ == granted_event(request_id@, option_id@),
{
    Event::new(SESSION_PERMISSION_GRANTED, decision_json(request_id, "granted", option_id))
}

/// An approver refuses the tool call `request_id`, selecting the rejecting
/// `option_id` the child offered.
#[must_use]
pub fn permission_denied(request_id: &str, option_id: &str) -> (r: Event)
    ensures
        r@ == event_of(
            SESSION_PERMISSION_DENIED@,
            decision_data(request_id@, "denied"@, option_id@),
        ),
        r@ == denied_event(request_id@, option_id@),
{
    Event::new(SESSION_PERMISSION_DENIED, decision_json(request_id, "denied", option_id))
}

/// Nobody decided the tool call `request_id`, so the request is withdrawn.
#[must_use]
pub fn permission_cancelled(request_id: &str) -> (r: Event)
    ensures
        r@ == event_of(
            SESSION_PERMISSION_CANCELLED@,
            json::empty_object().set("request_id"@, jtext(request_id@)).set(
                "decision"@,
                jtext("cancelled"@),
            ).set("cancelled"@, JsonValue::Bool(true)),
        ),
        r@ == withdrawn_event(request_id@),
{
    Event::new(
        SESSION_PERMISSION_CANCELLED,
        Json::object().with("request_id", Json::text(request_id)).with(
            "decision",
            Json::text("cancelled"),
        ).with("cancelled", Json::Bool(true)),
    )
}

/// The `subject` attribute that addresses `session_id`'s child.
#[must_use]
pub fn session_subject(session_id: &str) -> (r: String)
    ensures
        r@ == SUBJECT_PREFIX@ + session_id@,
{
    text::concat(SUBJECT_PREFIX, session_id)
}

/// One step a bridge asks the manager to take.
#[derive(Debug)]
pub enum Action {
    /// Append this event (the manager stamps `subject`).
    Publish(Event),
    /// Write this line to the child.
    Write(String),
}

/// A step, as plain values.
pub enum ActionValue {
    Publish(EventValue),
    Write(Seq<char>),
}

impl View for Action {
    type V = ActionValue;

    open spec fn view(&self) -> ActionValue {
        match self {
            Action::Publish(event) => ActionValue::Publish(event@),
            Action::Write(line) => ActionValue::Write(line@),
        }
    }
}

/// The steps, as plain values.
pub open spec fn action_views(actions: Seq<Action>) -> Seq<ActionValue> {
    Seq::new(actions.len(), |i: int| actions[i]@)
}

fn no_actions() -> (r: Vec<Action>)
    ensures
        action_views(r@) == Seq::<ActionValue>::empty(),
{
    let actions: Vec<Action> = Vec::new();
    proof {
        assert(action_views(actions@) =~= Seq::<ActionValue>::empty());
    }
    actions
}

fn one_action(action: Action) -> (r: Vec<Action>)
    ensures
        action_views(r@) == seq![action@],
{
    let mut actions: Vec<Action> = Vec::new();
    actions.push(action);
    proof {
        assert(action_views(actions@) =~= seq![action@]);
    }
    actions
}

fn two_actions(first: Action, second: Action) -> (r: Vec<Action>)
    ensures
        action_views(r@) == seq![first@, second@],
{
    let mut actions: Vec<Action> = Vec::new();
    actions.push(first);
    actions.push(second);
    proof {
        assert(action_views(actions@) =~= seq![first@, second@]);
    }
    actions
}

/// What a protocol needs to know about the session it is connecting.
#[derive(Debug, Clone, Copy)]
pub struct SessionContext<'a> {
    /// The daemon's session id, used in the `subject` of emitted events.
    pub session_id: &'a str,
    /// The sandbox working directory, which an agent advertises as the ACP
    /// `cwd` and works inside.
    pub workdir: &'a str,
}

/// A protocol, shared across sessions. It creates one state machine per child.
pub trait Protocol {
    /// The state machine of one session.
    type Machine: Bridge;

    /// Whether a machine is one that the protocol makes for a session. A protocol
    /// that does not say may make any.
    open spec fn connects(
        &self,
        session_id: Seq<char>,
        workdir: Seq<char>,
        machine: Self::Machine,
    ) -> bool {
        true
    }

    /// A fresh state machine for one session.
    fn connect(&self, context: &SessionContext<'_>) -> (r: Self::Machine)
        ensures
            self.connects(context.session_id@, context.workdir@, r),
    ;
}

/// The per-session conversion state machine.
///
/// A bridge owns its phase and id table for one child, and all I/O stays in the
/// manager.
pub trait Bridge {
    /// The opening exchange, called once when the child starts.
    fn start(&mut self) -> Vec<Action>;

    /// Converts one event routed to this session into actions.
    fn on_event(&mut self, event: &Event) -> Vec<Action>;

    /// Converts one line of the child's output into actions.
    fn on_line(&mut self, line: &str) -> Vec<Action>;
}

/// The event for one inbound protocol message.
pub open spec fn inbound_event(protocol: Seq<char>, message: JsonValue) -> EventValue {
    event_of(
        PROTOCOL_INBOUND@,
        json::empty_object().set("protocol"@, jtext(protocol)).set("message"@, message),
    )
}

/// Builds the event for one inbound protocol message.
///
/// The `subject` attribute is deliberately not set here: the manager that knows
/// the session attaches it, so a bridge cannot misattribute a message.
#[must_use]
pub fn protocol_inbound(protocol: &str, message: &Json) -> (r: Event)
    ensures
        r@ == inbound_event(protocol@, message@),
{
    Event::new(
        PROTOCOL_INBOUND,
        Json::object().with("protocol", Json::text(protocol)).with("message", message.clone()),
    )
}

/// Whether a value declares itself a JSON-RPC 2.0 message.
pub open spec fn is_rpc(message: JsonValue) -> bool {
    json::text_field(message, "jsonrpc"@) == Some("2.0"@)
}

/// The JSON-RPC 2.0 message a parsed line is, if it is one.
pub open spec fn rpc_message(parsed: Option<JsonValue>) -> Option<JsonValue> {
    match parsed {
        Some(message) => if is_rpc(message) {
            Some(message)
        } else {
            None
        },
        None => None,
    }
}

/// Whether a value declares itself a JSON-RPC 2.0 message.
fn declares_rpc(message: &Json) -> (r: bool)
    ensures
        r == is_rpc(message@),
{
    match message.get_str("jsonrpc") {
        Some(version) => text::same(version, "2.0"),
        None => false,
    }
}

/// Parses one line as a JSON-RPC 2.0 message, or `None`.
fn parse_message(line: &str) -> (r: Option<Json>)
    ensures
        match r {
            Some(message) => rpc_message(json::json_parsed(line@)) == Some(message@),
            None => rpc_message(json::json_parsed(line@)) is None,
        },
{
    match Json::parse(line) {
        Some(message) => {
            if declares_rpc(&message) {
                Some(message)
            } else {
                None
            }
        },
        None => None,
    }
}

/// What an outbound event asks a bridge of `protocol` to write: its message,
/// when it is a JSON-RPC message of that protocol.
pub open spec fn outbound_line(protocol: Seq<char>, data: JsonValue) -> Option<Seq<char>> {
    if json::text_field(data, "protocol"@) != Some(protocol) {
        None
    } else {
        match json::field(data, "message"@) {
            Some(message) => if is_rpc(message) {
                Some(json::json_rendered(message))
            } else {
                None
            },
            None => None,
        }
    }
}

/// The write of a line, or nothing.
pub open spec fn write_of(line: Option<Seq<char>>) -> Seq<ActionValue> {
    match line {
        Some(line) => seq![ActionValue::Write(line)],
        None => Seq::empty(),
    }
}

fn render_outbound(protocol: &str, data: &Json) -> (r: Vec<Action>)
    ensures
        action_views(r@) == write_of(outbound_line(protocol@, data@)),
{
    let ours = match data.get_str("protocol") {
        Some(name) => text::same(name, protocol),
        None => false,
    };
    if !ours {
        return no_actions();
    }
    match data.get("message") {
        Some(message) => {
            if declares_rpc(message) {
                one_action(Action::Write(message.to_string()))
            } else {
                no_actions()
            }
        },
        None => no_actions(),
    }
}

/// The Model Context Protocol over stdio: newline-delimited JSON-RPC 2.0.
#[derive(Debug)]
pub struct McpProtocol {
    protocol_version: String,
    client_name: String,
}

/// The configured handshake of an MCP bridge.
#[verifier::ext_equal]
pub struct McpConfig {
    pub protocol_version: Seq<char>,
    pub client_name: Seq<char>,
}

impl View for McpProtocol {
    type V = McpConfig;

    closed spec fn view(&self) -> McpConfig {
        McpConfig { protocol_version: self.protocol_version@, client_name: self.client_name@ }
    }
}

impl McpProtocol {
    /// Creates a protocol that announces `client_name` at the default
    /// revision.
    #[must_use]
    pub fn new(client_name: &str) -> (r: McpProtocol)
        ensures
            r@ == (McpConfig {
                protocol_version: MCP_PROTOCOL_VERSION@,
                client_name: client_name@,
            }),
    {
        McpProtocol {
            protocol_version: MCP_PROTOCOL_VERSION.to_owned(),
            client_name: client_name.to_owned(),
        }
    }

    /// Overrides the protocol revision announced in the handshake.
    #[must_use]
    pub fn with_protocol_version(self, protocol_version: &str) -> (r: McpProtocol)
        ensures
            r@ == (McpConfig { protocol_version: protocol_version@, ..self@ }),
    {
        McpProtocol {
            protocol_version: protocol_version.to_owned(),
            client_name: self.client_name,
        }
    }
}

impl Default for McpProtocol {
    fn default() -> (r: McpProtocol)
        ensures
            r@ == (McpConfig {
                protocol_version: MCP_PROTOCOL_VERSION@,
                client_name: "agentd"@,
            }),
    {
        McpProtocol::new("agentd")
    }
}

impl Protocol for McpProtocol {
    type Machine = McpBridge;

    open spec fn connects(
        &self,
        session_id: Seq<char>,
        workdir: Seq<char>,
        machine: McpBridge,
    ) -> bool {
        machine@ == self@
    }

    fn connect(&self, _context: &SessionContext<'_>) -> (r: McpBridge) {
        McpBridge {
            protocol_version: self.protocol_version.clone(),
            client_name: self.client_name.clone(),
        }
    }
}

/// The MCP state machine. MCP is a request/response codec with no phase, so the
/// machine's only state is the configured handshake.
#[derive(Debug)]
pub struct McpBridge {
    protocol_version: String,
    client_name: String,
}

impl View for McpBridge {
    type V = McpConfig;

    closed spec fn view(&self) -> McpConfig {
        McpConfig { protocol_version: self.protocol_version@, client_name: self.client_name@ }
    }
}

/// How a client describes itself.
pub open spec fn client_info(name: Seq<char>) -> JsonValue {
    json::empty_object().set("name"@, jtext(name)).set("version"@, jtext(CLIENT_VERSION@))
}

/// The first message of an MCP session.
pub open spec fn mcp_initialize(config: McpConfig) -> JsonValue {
    json::empty_object().set("jsonrpc"@, jtext("2.0"@)).set("id"@, jnumber(0)).set(
        "method"@,
        jtext("initialize"@),
    ).set(
        "params"@,
        json::empty_object().set("protocolVersion"@, jtext(config.protocol_version)).set(
            "capabilities"@,
            json::empty_object(),
        ).set("clientInfo"@, client_info(config.client_name)),
    )
}

/// The notification that follows the answer to the first message.
pub open spec fn mcp_initialized() -> JsonValue {
    json::empty_object().set("jsonrpc"@, jtext("2.0"@)).set(
        "method"@,
        jtext("notifications/initialized"@),
    )
}

/// Whether a message answers the first message.
pub open spec fn answers_initialize(message: JsonValue) -> bool {
    json::unsigned_field(message, "id"@) == Some(0u64) && (json::field(message, "result"@) is Some
        || json::field(message, "error"@) is Some)
}

/// What an MCP bridge does with a message of its child: it is published, and
/// the answer to the handshake is acknowledged.
pub open spec fn mcp_on_message(message: JsonValue) -> Seq<ActionValue> {
    let published = ActionValue::Publish(inbound_event("mcp"@, message));
    if answers_initialize(message) {
        seq![published, ActionValue::Write(json::json_rendered(mcp_initialized()))]
    } else {
        seq![published]
    }
}

/// What an MCP bridge does with an event: it writes the MCP messages addressed
/// to its child and nothing else.
pub open spec fn mcp_on_event(event: EventValue) -> Seq<ActionValue> {
    if event.kind == PROTOCOL_OUTBOUND@ {
        write_of(outbound_line("mcp"@, event.data))
    } else {
        Seq::empty()
    }
}

fn client_info_json(name: &str) -> (r: Json)
    ensures
        r@ == client_info(name@),
{
    Json::object().with("name", Json::text(name)).with("version", Json::text(CLIENT_VERSION))
}

impl McpBridge {
    /// The `initialize` request, the first message of an MCP session.
    fn initialize_request(&self) -> (r: String)
        ensures
            r@ == json::json_rendered(mcp_initialize(self@)),
    {
        let params = Json::object().with(
            "protocolVersion",
            Json::text(self.protocol_version.as_str()),
        ).with("capabilities", Json::object()).with(
            "clientInfo",
            client_info_json(self.client_name.as_str()),
        );
        Json::object().with("jsonrpc", Json::text("2.0")).with("id", Json::unsigned(0)).with(
            "method",
            Json::text("initialize"),
        ).with("params", params).to_string()
    }

    /// Whether `message` is the response to the bridge's `initialize` request,
    /// which an MCP server expects to be followed by `notifications/initialized`.
    fn is_initialize_response(message: &Json) -> (r: bool)
        ensures
            r == answers_initialize(message@),
    {
        let first = match message.get_u64("id") {
            Some(id) => id == 0,
            None => false,
        };
        first && (message.get("result").is_some() || message.get("error").is_some())
    }

    /// Converts one JSON-RPC message of the child into actions.
    pub fn on_message(&self, message: &Json) -> (r: Vec<Action>)
        ensures
            action_views(r@) == mcp_on_message(message@),
    {
        let published = Action::Publish(protocol_inbound("mcp", message));
        if McpBridge::is_initialize_response(message) {
            let line = Json::object().with("jsonrpc", Json::text("2.0")).with(
                "method",
                Json::text("notifications/initialized"),
            ).to_string();
            two_actions(published, Action::Write(line))
        } else {
            one_action(published)
        }
    }
}

impl Bridge for McpBridge {
    fn start(&mut self) -> (r: Vec<Action>)
        ensures
            final(self)@ == old(self)@,
            action_views(r@) == seq![
                ActionValue::Write(json::json_rendered(mcp_initialize(old(self)@))),
            ],
    {
        one_action(Action::Write(self.initialize_request()))
    }

    fn on_event(&mut self, event: &Event) -> (r: Vec<Action>)
        ensures
            final(self)@ == old(self)@,
            action_views(r@) == mcp_on_event(event@),
    {
        if !text::same(event.kind.as_str(), PROTOCOL_OUTBOUND) {
            return no_actions();
        }
        render_outbound("mcp", &event.data)
    }

    fn on_line(&mut self, line: &str) -> (r: Vec<Action>)
        ensures
            final(self)@ == old(self)@,
            action_views(r@) == match rpc_message(json::json_parsed(line@)) {
                Some(message) => mcp_on_message(message),
                None => Seq::empty(),
            },
    {
        match parse_message(line) {
            Some(message) => self.on_message(&message),
            None => no_actions(),
        }
    }
}

/// The Agent Client Protocol: a client-side state machine over stdio JSON-RPC.
#[derive(Debug)]
pub struct AcpProtocol {
    client_name: String,
    protocol_version: u16,
}

/// What an ACP protocol announces.
#[verifier::ext_equal]
pub struct AcpConfig {
    pub client_name: Seq<char>,
    pub protocol_version: u16,
}

impl View for AcpProtocol {
    type V = AcpConfig;

    closed spec fn view(&self) -> AcpConfig {
        AcpConfig { client_name: self.client_name@, protocol_version: self.protocol_version }
    }
}

impl AcpProtocol {
    /// Creates a protocol that announces `client_name`.
    #[must_use]
    pub fn new(client_name: &str) -> (r: AcpProtocol)
        ensures
            r@ == (AcpConfig {
                client_name: client_name@,
                protocol_version: ACP_PROTOCOL_VERSION,
            }),
    {
        AcpProtocol {
            client_name: client_name.to_owned(),
            protocol_version: ACP_PROTOCOL_VERSION,
        }
    }

    /// Overrides the ACP major version announced in `initialize`.
    #[must_use]
    pub fn with_protocol_version(self, protocol_version: u16) -> (r: AcpProtocol)
        ensures
            r@ == (AcpConfig { protocol_version, ..self@ }),
    {
        AcpProtocol { client_name: self.client_name, protocol_version }
    }
}

impl Default for AcpProtocol {
    fn default() -> (r: AcpProtocol)
        ensures
            r@ == (AcpConfig {
                client_name: "agentd"@,
                protocol_version: ACP_PROTOCOL_VERSION,
            }),
    {
        AcpProtocol::new("agentd")
    }
}

/// How far the client side of the ACP handshake has progressed.
#[derive(Debug, Clone, Copy, PartialEq, Eq, Structural)]
pub enum Phase {
    /// `initialize` sent, its response awaited.
    Started,
    /// `initialize` answered, `session/new` sent.
    Initialized,
    /// A session exists; prompts may be sent.
    Ready,
    /// A prompt turn is in flight.
    Prompting,
    /// The handshake was rejected; the child cannot be driven.
    Failed,
}

/// What an outbound JSON-RPC id was allocated for, so its response advances the
/// right state.
#[derive(Debug, Clone, Copy, PartialEq, Eq, Structural)]
pub enum Pending {
    /// The `initialize` request.
    Initialize,
    /// The `session/new` request.
    NewSession,
    /// A `session/prompt` request.
    Prompt,
}

/// The ACP client state machine for one supervised agent.
#[derive(Debug)]
pub struct AcpBridge {
    /// The daemon's session id, named in the events it emits.
    session_id: String,
    /// The sandbox working directory, advertised as the ACP `cwd`.
    workdir: String,
    client_name: String,
    protocol_version: u16,
    phase: Phase,
    /// The next outbound JSON-RPC id.
    next_id: u64,
    /// The ACP session id from `session/new`, needed by `session/prompt`.
    acp_session_id: Option<String>,
    /// Outbound requests awaiting a response, keyed by JSON-RPC id.
    pending: HashMap<u64, Pending>,
    /// Inbound requests from the agent awaiting a decision, keyed by the
    /// JSON-RPC id's string form, so a decision can be answered under the same
    /// id.
    inbound: TextMap<Json>,
}

/// The state of an ACP bridge, as plain values.
#[verifier::ext_equal]
pub struct AcpState {
    pub session_id: Seq<char>,
    pub workdir: Seq<char>,
    pub config: AcpConfig,
    pub phase: Phase,
    pub next_id: u64,
    pub acp_session_id: Option<Seq<char>>,
    pub pending: Map<u64, Pending>,
    pub inbound: Map<Seq<char>, JsonValue>,
}

/// The values of a map, as plain values.
pub open spec fn json_map(map: Map<Seq<char>, Json>) -> Map<Seq<char>, JsonValue> {
    map.map_values(|json: Json| json@)
}

impl View for AcpBridge {
    type V = AcpState;

    closed spec fn view(&self) -> AcpState {
        AcpState {
            session_id: self.session_id@,
            workdir: self.workdir@,
            config: AcpConfig {
                client_name: self.client_name@,
                protocol_version: self.protocol_version,
            },
            phase: self.phase,
            next_id: self.next_id,
            acp_session_id: text::opt_view(self.acp_session_id),
            pending: self.pending@,
            inbound: json_map(self.inbound@),
        }
    }
}

impl Protocol for AcpProtocol {
    type Machine = AcpBridge;

    open spec fn connects(
        &self,
        session_id: Seq<char>,
        workdir: Seq<char>,
        machine: AcpBridge,
    ) -> bool {
        machine@ == acp_fresh(self@, session_id, workdir)
    }

    fn connect(&self, context: &SessionContext<'_>) -> (r: AcpBridge) {
        let bridge = AcpBridge {
            session_id: context.session_id.to_owned(),
            workdir: context.workdir.to_owned(),
            client_name: self.client_name.clone(),
            protocol_version: self.protocol_version,
            phase: Phase::Started,
            next_id: 0,
            acp_session_id: None,
            pending: HashMap::new(),
            inbound: TextMap::new(),
        };
        proof {
            assert(bridge@.inbound =~= Map::<Seq<char>, JsonValue>::empty());
            assert(bridge@ =~= acp_fresh(self@, context.session_id@, context.workdir@));
        }
        bridge
    }
}

/// The state of a bridge that was just connected.
pub open spec fn acp_fresh(
    config: AcpConfig,
    session_id: Seq<char>,
    workdir: Seq<char>,
) -> AcpState {
    AcpState {
        session_id,
        workdir,
        config,
        phase: Phase::Started,
        next_id: 0,
        acp_session_id: None,
        pending: Map::empty(),
        inbound: Map::empty(),
    }
}

/// The id that follows another; ids wrap around.
pub open spec fn following(id: u64) -> u64 {
    if id == u64::MAX {
        0
    } else {
        (id + 1) as u64
    }
}

/// A request to the agent: the next id is allocated for `pending`, and the
/// request is written.
pub open spec fn acp_request(
    state: AcpState,
    pending: Pending,
    method: Seq<char>,
    params: JsonValue,
) -> (AcpState, ActionValue) {
    (
        AcpState {
            next_id: following(state.next_id),
            pending: state.pending.insert(state.next_id, pending),
            ..state
        },
        ActionValue::Write(
            json::json_rendered(
                json::empty_object().set("jsonrpc"@, jtext("2.0"@)).set(
                    "id"@,
                    jnumber(state.next_id),
                ).set("method"@, jtext(method)).set("params"@, params),
            ),
        ),
    )
}

/// The client capabilities advertised in `initialize`. The agent does its own
/// filesystem and shell work inside the sandbox, so none of it is proxied.
pub open spec fn capabilities() -> JsonValue {
    json::empty_object().set(
        "fs"@,
        json::empty_object().set("readTextFile"@, JsonValue::Bool(false)).set(
            "writeTextFile"@,
            JsonValue::Bool(false),
        ),
    ).set("terminal"@, JsonValue::Bool(false))
}

/// The opening exchange: `initialize`.
pub open spec fn acp_start(state: AcpState) -> (AcpState, ActionValue) {
    acp_request(
        state,
        Pending::Initialize,
        "initialize"@,
        json::empty_object().set(
            "protocolVersion"@,
            jnumber(state.config.protocol_version as u64),
        ).set("clientCapabilities"@, capabilities()).set(
            "clientInfo"@,
            client_info(state.config.client_name),
        ),
    )
}

/// The string form of a JSON-RPC id, used as the correlation key in events.
pub open spec fn id_text(id: JsonValue) -> Seq<char> {
    match id {
        JsonValue::Text(text) => text,
        JsonValue::Number(text) => text,
        other => json::json_rendered(other),
    }
}

/// A request of the agent: it is published; a permission request is remembered
/// under its id and published for decision; any other is answered as not
/// supported.
pub open spec fn acp_on_request(
    state: AcpState,
    id: JsonValue,
    method: Seq<char>,
    params: JsonValue,
) -> (AcpState, Seq<ActionValue>) {
    let message = json::empty_object().set("jsonrpc"@, jtext("2.0"@)).set("id"@, id).set(
        "method"@,
        jtext(method),
    ).set("params"@, params);
    let published = ActionValue::Publish(inbound_event("acp"@, message));
    if method == "session/request_permission"@ {
        (
            AcpState { inbound: state.inbound.insert(id_text(id), id), ..state },
            seq![
                published,
                ActionValue::Publish(
                    event_of(
                        SESSION_PERMISSION_REQUESTED@,
                        json::empty_object().set("protocol"@, jtext("acp"@)).set(
                            "session_id"@,
                            jtext(state.session_id),
                        ).set("request_id"@, jtext(id_text(id))).set(
                            "tool_call"@,
                            json::field_or_null(params, "toolCall"@),
                        ).set("options"@, json::field_or_null(params, "options"@)),
                    ),
                ),
            ],
        )
    } else {
        (
            state,
            seq![
                published,
                ActionValue::Write(
                    json::json_rendered(
                        json::empty_object().set("jsonrpc"@, jtext("2.0"@)).set("id"@, id).set(
                            "error"@,
                            json::empty_object().set(
                                "code"@,
                                JsonValue::Number(json::integer_text(-32601)),
                            ).set("message"@, jtext("method not supported: "@ + method)),
                        ),
                    ),
                ),
            ],
        )
    }
}

/// The event that reports something of an ACP session, with one more field.
pub open spec fn acp_report(
    kind: Seq<char>,
    session_id: Seq<char>,
    name: Seq<char>,
    value: JsonValue,
) -> EventValue {
    event_of(
        kind,
        json::empty_object().set("protocol"@, jtext("acp"@)).set(
            "session_id"@,
            jtext(session_id),
        ).set(name, value),
    )
}

/// The session id a `session/new` response carries, if it carries one.
pub open spec fn new_session_id(message: JsonValue) -> Option<Seq<char>> {
    match json::field(message, "result"@) {
        Some(result) => json::text_field(result, "sessionId"@),
        None => None,
    }
}

/// The stop reason a prompt response carries, or null.
pub open spec fn stop_reason(message: JsonValue) -> JsonValue {
    match json::field(message, "result"@) {
        Some(result) => json::field_or_null(result, "stopReason"@),
        None => JsonValue::Null,
    }
}

/// The state after the handshake was rejected, and the report of it.
pub open spec fn acp_rejected(
    state: AcpState,
    published: ActionValue,
    error: JsonValue,
) -> (AcpState, Seq<ActionValue>) {
    (
        AcpState { phase: Phase::Failed, ..state },
        seq![
            published,
            ActionValue::Publish(
                acp_report(PROTOCOL_FAILED@, state.session_id, "error"@, error),
            ),
        ],
    )
}

/// A response of the agent: it is published, and the request it answers
/// advances the handshake or ends the prompt turn. A response to an unknown id
/// is only published.
pub open spec fn acp_on_response(
    state: AcpState,
    id: u64,
    message: JsonValue,
) -> (AcpState, Seq<ActionValue>) {
    let published = ActionValue::Publish(inbound_event("acp"@, message));
    if !state.pending.contains_key(id) {
        (state, seq![published])
    } else {
        let rest = AcpState { pending: state.pending.remove(id), ..state };
        match state.pending[id] {
            Pending::Initialize => match json::field(message, "error"@) {
                Some(error) => acp_rejected(rest, published, error),
                None => {
                    let (after, write) = acp_request(
                        AcpState { phase: Phase::Initialized, ..rest },
                        Pending::NewSession,
                        "session/new"@,
                        json::empty_object().set("cwd"@, jtext(state.workdir)).set(
                            "mcpServers"@,
                            JsonValue::Array(Seq::empty()),
                        ),
                    );
                    (after, seq![published, write])
                },
            },
            Pending::NewSession => match json::field(message, "error"@) {
                Some(error) => acp_rejected(rest, published, error),
                None => match new_session_id(message) {
                    Some(acp_session_id) => (
                        AcpState {
                            phase: Phase::Ready,
                            acp_session_id: Some(acp_session_id),
                            ..rest
                        },
                        seq![
                            published,
                            ActionValue::Publish(
                                event_of(
                                    PROTOCOL_READY@,
                                    json::empty_object().set("protocol"@, jtext("acp"@)).set(
                                        "session_id"@,
                                        jtext(state.session_id),
                                    ),
                                ),
                            ),
                        ],
                    ),
                    None => (AcpState { acp_session_id: None, ..rest }, seq![published]),
                },
            },
            Pending::Prompt => (
                AcpState { phase: Phase::Ready, ..rest },
                seq![
                    published,
                    ActionValue::Publish(
                        match json::field(message, "error"@) {
                            Some(error) => acp_report(
                                PROMPT_FAILED@,
                                state.session_id,
                                "error"@,
                                error,
                            ),
                            None => acp_report(
                                PROMPT_COMPLETED@,
                                state.session_id,
                                "stop_reason"@,
                                stop_reason(message),
                            ),
                        },
                    ),
                ],
            ),
        }
    }
}

/// What an ACP bridge does with a message of its agent: a request, a
/// notification, or a response.
pub open spec fn acp_on_message(
    state: AcpState,
    message: JsonValue,
) -> (AcpState, Seq<ActionValue>) {
    let published = ActionValue::Publish(inbound_event("acp"@, message));
    match json::text_field(message, "method"@) {
        Some(method) => match json::field(message, "id"@) {
            Some(id) => if id is Null {
                (state, seq![published])
            } else {
                acp_on_request(state, id, method, json::field_or_null(message, "params"@))
            },
            None => (state, seq![published]),
        },
        None => match json::unsigned_field(message, "id"@) {
            Some(id) => acp_on_response(state, id, message),
            None => (state, seq![published]),
        },
    }
}

/// The outcome a decision answers a permission request with: the selected
/// option, or a cancellation.
pub open spec fn decided_outcome(kind: Seq<char>, data: JsonValue) -> JsonValue {
    match json::text_field(data, "option_id"@) {
        Some(option_id) => if kind == SESSION_PERMISSION_CANCELLED@ {
            json::empty_object().set("outcome"@, jtext("cancelled"@))
        } else {
            json::empty_object().set("outcome"@, jtext("selected"@)).set(
                "optionId"@,
                jtext(option_id),
            )
        },
        None => json::empty_object().set("outcome"@, jtext("cancelled"@)),
    }
}

/// A decision: the pending request it names is answered under its original id
/// and is pending no longer; any other decision does nothing.
pub open spec fn acp_on_decision(
    state: AcpState,
    kind: Seq<char>,
    data: JsonValue,
) -> (AcpState, Seq<ActionValue>) {
    match json::text_field(data, "request_id"@) {
        Some(request_id) => if state.inbound.contains_key(request_id) {
            (
                AcpState { inbound: state.inbound.remove(request_id), ..state },
                seq![
                    ActionValue::Write(
                        json::json_rendered(
                            json::empty_object().set("jsonrpc"@, jtext("2.0"@)).set(
                                "id"@,
                                state.inbound[request_id],
                            ).set(
                                "result"@,
                                json::empty_object().set("outcome"@, decided_outcome(kind, data)),
                            ),
                        ),
                    ),
                ],
            )
        } else {
            (state, Seq::empty())
        },
        None => (state, Seq::empty()),
    }
}

/// A prompt: a turn starts when a session exists and none is in flight.
pub open spec fn acp_on_prompt(state: AcpState, data: JsonValue) -> (AcpState, Seq<ActionValue>) {
    match state.acp_session_id {
        Some(session) => if state.phase == Phase::Ready {
            let (after, write) = acp_request(
                AcpState { phase: Phase::Prompting, ..state },
                Pending::Prompt,
                "session/prompt"@,
                json::empty_object().set("sessionId"@, jtext(session)).set(
                    "prompt"@,
                    json::field_or_null(data, "prompt"@),
                ),
            );
            (after, seq![write])
        } else {
            (state, Seq::empty())
        },
        None => (state, Seq::empty()),
    }
}

/// What an ACP bridge does with an event routed to it.
pub open spec fn acp_on_event(state: AcpState, event: EventValue) -> (AcpState, Seq<
    ActionValue,
>) {
    if event.kind == PROMPT_REQUESTED@ {
        acp_on_prompt(state, event.data)
    } else if is_decision(event.kind) {
        acp_on_decision(state, event.kind, event.data)
    } else if event.kind == PROTOCOL_OUTBOUND@ {
        (state, write_of(outbound_line("acp"@, event.data)))
    } else {
        (state, Seq::empty())
    }
}

/// No prompt is sent before a session exists, nor while a turn is in flight,
/// nor after the handshake was rejected.
pub proof fn no_prompt_without_a_ready_session(state: AcpState, data: JsonValue)
    requires
        state.acp_session_id is None || state.phase != Phase::Ready,
    ensures
        acp_on_prompt(state, data) == (state, Seq::<ActionValue>::empty()),
{
}

/// What happens to an ACP bridge.
pub enum AcpStep {
    /// The child starts.
    Start,
    /// The child writes a message.
    Message(JsonValue),
    /// An event is routed to the session.
    Event(EventValue),
}

/// The bridge after something happened, and what it does.
pub open spec fn acp_step(state: AcpState, step: AcpStep) -> (AcpState, Seq<ActionValue>) {
    match step {
        AcpStep::Start => (acp_start(state).0, seq![acp_start(state).1]),
        AcpStep::Message(message) => acp_on_message(state, message),
        AcpStep::Event(event) => acp_on_event(state, event),
    }
}

/// The bridge after all that happened.
pub open spec fn acp_run(state: AcpState, steps: Seq<AcpStep>) -> AcpState
    decreases steps.len(),
{
    if steps.len() == 0 {
        state
    } else {
        acp_step(acp_run(state, steps.drop_last()), steps.last()).0
    }
}

/// Whether this is what happens to a bridge over a session: the child starts
/// first, and once.
pub open spec fn is_session(steps: Seq<AcpStep>) -> bool {
    forall|i: int| 0 <= i < steps.len() ==> ((#[trigger] steps[i]) is Start <==> i == 0)
}

/// Whether one request awaits its response, for `purpose`, and nothing else does.
pub open spec fn only_awaits(pending: Map<u64, Pending>, purpose: Pending) -> bool {
    exists|id: u64| pending == #[trigger] Map::<u64, Pending>::empty().insert(id, purpose)
}

/// What holds of a bridge whatever happened to it: at most one request awaits its
/// response, the one its phase says; a session id is known exactly once the
/// session exists; and every id that awaits a response was allocated.
pub open spec fn acp_invariant(state: AcpState) -> bool {
    let idle = state.pending == Map::<u64, Pending>::empty();
    &&& forall|id: u64| #[trigger] state.pending.contains_key(id) ==> id < state.next_id
    &&& match state.phase {
        Phase::Started => state.acp_session_id is None && (idle || only_awaits(
            state.pending,
            Pending::Initialize,
        )),
        Phase::Initialized => state.acp_session_id is None && (idle || only_awaits(
            state.pending,
            Pending::NewSession,
        )),
        Phase::Ready => state.acp_session_id is Some && idle,
        Phase::Prompting => state.acp_session_id is Some && only_awaits(
            state.pending,
            Pending::Prompt,
        ),
        Phase::Failed => state.acp_session_id is None && idle,
    }
}

/// A bridge that was just connected meets its invariant, and whatever happens to
/// it keeps it, as long as ids are left and the child starts once. An id is
/// allocated at a time, in ascending order.
pub proof fn every_step_keeps_the_invariant(
    state: AcpState,
    step: AcpStep,
    config: AcpConfig,
    session_id: Seq<char>,
    workdir: Seq<char>,
)
    requires
        acp_invariant(state),
        state.next_id < u64::MAX,
        step is Start ==> state.phase == Phase::Started && state.pending == Map::<
            u64,
            Pending,
        >::empty(),
    ensures
        acp_invariant(acp_fresh(config, session_id, workdir)),
        acp_invariant(acp_step(state, step).0),
        state.next_id <= acp_step(state, step).0.next_id <= state.next_id + 1,
{
    let after = acp_step(state, step).0;
    match step {
        AcpStep::Start => {
            assert(after.pending == Map::<u64, Pending>::empty().insert(
                state.next_id,
                Pending::Initialize,
            ));
        },
        AcpStep::Message(message) => {
            if json::text_field(message, "method"@) is None && json::unsigned_field(
                message,
                "id"@,
            ) is Some {
                let id = json::unsigned_field(message, "id"@)->0;
                if state.pending.contains_key(id) {
                    lemma_answered_alone(state.pending, id);
                    assert(after.pending == Map::<u64, Pending>::empty() || after.pending == Map::<
                        u64,
                        Pending,
                    >::empty().insert(state.next_id, Pending::NewSession));
                }
            }
        },
        AcpStep::Event(event) => {
            if event.kind == PROMPT_REQUESTED@ && state.phase == Phase::Ready {
                assert(after.pending == Map::<u64, Pending>::empty().insert(
                    state.next_id,
                    Pending::Prompt,
                ));
            }
        },
    }
}

proof fn lemma_answered_alone(pending: Map<u64, Pending>, id: u64)
    requires
        pending.contains_key(id),
    ensures
        forall|purpose: Pending| #[trigger]
            only_awaits(pending, purpose) ==> pending[id] == purpose && pending.remove(id)
                == Map::<u64, Pending>::empty(),
{
    assert forall|purpose: Pending| #[trigger] only_awaits(pending, purpose) implies pending[id]
        == purpose && pending.remove(id) == Map::<u64, Pending>::empty() by {
        let other = choose|other: u64|
            pending == #[trigger] Map::<u64, Pending>::empty().insert(other, purpose);
        assert(other == id);
        assert(pending.remove(id) =~= Map::<u64, Pending>::empty());
    }
}

/// A message that answers the request under an id.
pub open spec fn answers(step: AcpStep, id: u64) -> bool {
    match step {
        AcpStep::Message(message) => json::text_field(message, "method"@) is None
            && json::unsigned_field(message, "id"@) == Some(id),
        _ => false,
    }
}

/// The session id with which a step answers `session/new`, if it does so without
/// an error.
pub open spec fn creates_session(state: AcpState, step: AcpStep) -> Option<Seq<char>> {
    match step {
        AcpStep::Message(message) => if exists|id: u64|
            #[trigger] answers(step, id) && state.pending.contains_key(id) && state.pending[id]
                == Pending::NewSession && json::field(message, "error"@) is None {
            new_session_id(message)
        } else {
            None
        },
        _ => None,
    }
}

/// The session id with which `session/new` was answered, if it was.
pub open spec fn created_session(state: AcpState, steps: Seq<AcpStep>) -> Option<Seq<char>>
    decreases steps.len(),
{
    if steps.len() == 0 {
        None
    } else {
        match creates_session(acp_run(state, steps.drop_last()), steps.last()) {
            Some(session) => Some(session),
            None => created_session(state, steps.drop_last()),
        }
    }
}

/// Whether a step sends a prompt to the agent.
pub open spec fn sends_prompt(state: AcpState, step: AcpStep) -> bool {
    match step {
        AcpStep::Event(event) => event.kind == PROMPT_REQUESTED@ && acp_on_prompt(
            state,
            event.data,
        ).1.len() > 0,
        _ => false,
    }
}

/// Whether a step answers a prompt.
pub open spec fn answers_prompt(state: AcpState, step: AcpStep) -> bool {
    exists|id: u64|
        #[trigger] answers(step, id) && state.pending.contains_key(id) && state.pending[id]
            == Pending::Prompt
}

/// Whether a prompt was sent that was not answered yet.
pub open spec fn prompt_in_flight(state: AcpState, steps: Seq<AcpStep>) -> bool
    decreases steps.len(),
{
    if steps.len() == 0 {
        false
    } else {
        let before = acp_run(state, steps.drop_last());
        if sends_prompt(before, steps.last()) {
            true
        } else if answers_prompt(before, steps.last()) {
            false
        } else {
            prompt_in_flight(state, steps.drop_last())
        }
    }
}

/// The ids of the requests that were sent, in order.
pub open spec fn used_ids(state: AcpState, steps: Seq<AcpStep>) -> Seq<u64>
    decreases steps.len(),
{
    if steps.len() == 0 {
        Seq::empty()
    } else {
        let before = acp_run(state, steps.drop_last());
        let earlier = used_ids(state, steps.drop_last());
        if acp_step(before, steps.last()).0.next_id != before.next_id {
            earlier.push(before.next_id)
        } else {
            earlier
        }
    }
}

proof fn lemma_session(
    config: AcpConfig,
    session_id: Seq<char>,
    workdir: Seq<char>,
    steps: Seq<AcpStep>,
)
    requires
        is_session(steps),
        steps.len() < u64::MAX,
    ensures
        ({
            let fresh = acp_fresh(config, session_id, workdir);
            let state = acp_run(fresh, steps);
            let ids = used_ids(fresh, steps);
            &&& acp_invariant(state)
            &&& state.next_id <= steps.len()
            &&& state.acp_session_id == created_session(fresh, steps)
            &&& prompt_in_flight(fresh, steps) == (state.phase == Phase::Prompting)
            &&& ids.len() == state.next_id
            &&& forall|i: int| 0 <= i < ids.len() ==> #[trigger] ids[i] == i
            &&& steps.len() == 0 ==> state == fresh
        }),
    decreases steps.len(),
{
    let fresh = acp_fresh(config, session_id, workdir);
    if steps.len() > 0 {
        let earlier = steps.drop_last();
        let last = steps.last();
        assert forall|i: int| 0 <= i < earlier.len() implies ((#[trigger] earlier[i]) is Start
            <==> i == 0) by {
            assert(earlier[i] == steps[i]);
        }
        lemma_session(config, session_id, workdir, earlier);
        let before = acp_run(fresh, earlier);
        assert(steps[steps.len() - 1] == last);
        every_step_keeps_the_invariant(before, last, config, session_id, workdir);
        let after = acp_step(before, last).0;
        if last is Message {
            let message = last->Message_0;
            if json::text_field(message, "method"@) is None && json::unsigned_field(
                message,
                "id"@,
            ) is Some {
                let id = json::unsigned_field(message, "id"@)->0;
                assert(answers(last, id));
                assert(forall|other: u64| #[trigger] answers(last, other) ==> other == id);
                if before.pending.contains_key(id) {
                    lemma_answered_alone(before.pending, id);
                }
            }
        }
        assert(after.acp_session_id == created_session(fresh, steps));
        assert(prompt_in_flight(fresh, steps) == (after.phase == Phase::Prompting));
    }
}

/// Over a session, a prompt is sent exactly when `session/new` was answered with a
/// session id and no earlier prompt is unanswered. It is then one request for that
/// session, under an id that was never used before; otherwise nothing happens.
pub proof fn prompts_are_sent_exactly_when_one_may_start(
    config: AcpConfig,
    session_id: Seq<char>,
    workdir: Seq<char>,
    steps: Seq<AcpStep>,
    data: JsonValue,
)
    requires
        is_session(steps),
        steps.len() < u64::MAX,
    ensures
        ({
            let fresh = acp_fresh(config, session_id, workdir);
            let state = acp_run(fresh, steps);
            let (after, actions) = acp_on_prompt(state, data);
            let created = created_session(fresh, steps);
            if created is Some && !prompt_in_flight(fresh, steps) {
                &&& actions == seq![
                    ActionValue::Write(
                        json::json_rendered(
                            json::empty_object().set("jsonrpc"@, jtext("2.0"@)).set(
                                "id"@,
                                jnumber(state.next_id),
                            ).set("method"@, jtext("session/prompt"@)).set(
                                "params"@,
                                json::empty_object().set("sessionId"@, jtext(created->0)).set(
                                    "prompt"@,
                                    json::field_or_null(data, "prompt"@),
                                ),
                            ),
                        ),
                    ),
                ]
                &&& !used_ids(fresh, steps).contains(state.next_id)
                &&& after.phase == Phase::Prompting
            } else {
                actions == Seq::<ActionValue>::empty() && after == state
            }
        }),
{
    lemma_session(config, session_id, workdir, steps);
}

/// A rejected handshake is final: the rejection is published, nothing is written
/// to the child, and whatever happens later the bridge stays failed and no prompt
/// does anything.
pub proof fn a_rejected_handshake_is_final(
    state: AcpState,
    id: u64,
    message: JsonValue,
    steps: Seq<AcpStep>,
    data: JsonValue,
)
    requires
        acp_invariant(state),
        state.pending.contains_key(id),
        state.pending[id] == Pending::Initialize || state.pending[id] == Pending::NewSession,
        json::field(message, "error"@) is Some,
        forall|i: int| 0 <= i < steps.len() ==> !((#[trigger] steps[i]) is Start),
    ensures
        ({
            let (rejected, actions) = acp_on_response(state, id, message);
            let later = acp_run(rejected, steps);
            &&& actions == seq![
                ActionValue::Publish(inbound_event("acp"@, message)),
                ActionValue::Publish(
                    acp_report(
                        PROTOCOL_FAILED@,
                        state.session_id,
                        "error"@,
                        json::field(message, "error"@)->0,
                    ),
                ),
            ]
            &&& later.phase == Phase::Failed
            &&& acp_on_prompt(later, data) == (later, Seq::<ActionValue>::empty())
        }),
{
    lemma_answered_alone(state.pending, id);
    lemma_failed_for_good(acp_on_response(state, id, message).0, steps);
}

proof fn lemma_failed_for_good(state: AcpState, steps: Seq<AcpStep>)
    requires
        state.phase == Phase::Failed,
        state.pending == Map::<u64, Pending>::empty(),
        forall|i: int| 0 <= i < steps.len() ==> !((#[trigger] steps[i]) is Start),
    ensures
        acp_run(state, steps).phase == Phase::Failed,
        acp_run(state, steps).pending == Map::<u64, Pending>::empty(),
    decreases steps.len(),
{
    if steps.len() > 0 {
        let earlier = steps.drop_last();
        assert forall|i: int| 0 <= i < earlier.len() implies !((#[trigger] earlier[i]) is Start) by {
            assert(earlier[i] == steps[i]);
        }
        lemma_failed_for_good(state, earlier);
        assert(!(steps[steps.len() - 1] is Start));
    }
}

/// A permission request is answered once, under the id it was asked with: a
/// second decision for it does nothing.
pub proof fn a_permission_request_is_answered_once(
    state: AcpState,
    id: JsonValue,
    params: JsonValue,
    kind: Seq<char>,
    data: JsonValue,
    later_kind: Seq<char>,
    later: JsonValue,
)
    requires
        json::text_field(data, "request_id"@) == Some(id_text(id)),
        json::text_field(later, "request_id"@) == Some(id_text(id)),
    ensures
        ({
            let asked = acp_on_request(
                state,
                id,
                "session/request_permission"@,
                params,
            ).0;
            let answered = acp_on_decision(asked, kind, data);
            &&& answered.1 == seq![
                ActionValue::Write(
                    json::json_rendered(
                        json::empty_object().set("jsonrpc"@, jtext("2.0"@)).set("id"@, id).set(
                            "result"@,
                            json::empty_object().set("outcome"@, decided_outcome(kind, data)),
                        ),
                    ),
                ),
            ]
            &&& acp_on_decision(answered.0, later_kind, later) == (
                answered.0,
                Seq::<ActionValue>::empty(),
            )
        }),
{
}

/// The agent's answer to a prompt ends the turn with exactly one report: a
/// failure when it carries an error, and otherwise a completion.
pub proof fn a_failed_prompt_is_not_completed(state: AcpState, id: u64, message: JsonValue)
    requires
        state.pending.contains_key(id),
        state.pending[id] == Pending::Prompt,
    ensures
        ({
            let (after, actions) = acp_on_response(state, id, message);
            &&& after.phase == Phase::Ready
            &&& !after.pending.contains_key(id)
            &&& actions.len() == 2
            &&& actions[1] is Publish
            &&& actions[1]->Publish_0.kind == if json::field(message, "error"@) is Some {
                PROMPT_FAILED@
            } else {
                PROMPT_COMPLETED@
            }
        }),
{
}

/// Every message of the agent is published first, whatever else it causes, and
/// a response to an unknown id or a notification causes nothing else.
pub proof fn every_message_is_published(state: AcpState, message: JsonValue)
    ensures
        ({
            let (after, actions) = acp_on_message(state, message);
            &&& 1 <= actions.len() <= 2
            &&& actions[0] is Publish
            &&& actions[0]->Publish_0.kind == PROTOCOL_INBOUND@
            &&& json::text_field(message, "method"@) is None && (json::unsigned_field(
                message,
                "id"@,
            ) is None || !state.pending.contains_key(
                json::unsigned_field(message, "id"@)->0,
            )) ==> after == state && actions == seq![
                ActionValue::Publish(inbound_event("acp"@, message)),
            ]
        }),
{
}

/// A bridge that was just connected negotiates a session in two exchanges: the
/// answer to `initialize` asks for a session, and the answer to that makes the
/// bridge ready for a prompt.
pub proof fn the_handshake_reaches_ready(
    config: AcpConfig,
    session_id: Seq<char>,
    workdir: Seq<char>,
    first: JsonValue,
    second: JsonValue,
    acp_session_id: Seq<char>,
)
    requires
        json::field(first, "error"@) is None,
        json::field(second, "error"@) is None,
        new_session_id(second) == Some(acp_session_id),
    ensures
        ({
            let fresh = acp_fresh(config, session_id, workdir);
            let started = acp_start(fresh).0;
            let initialized = acp_on_response(started, 0, first).0;
            let ready = acp_on_response(initialized, 1, second).0;
            &&& started.pending[0] == Pending::Initialize
            &&& initialized.phase == Phase::Initialized
            &&& ready.phase == Phase::Ready
            &&& ready.acp_session_id == Some(acp_session_id)
        }),
{
}

fn report(kind: &str, session_id: &str, name: &str, value: Json) -> (r: Event)
    ensures
        r@ == acp_report(kind@, session_id@, name@, value@),
{
    Event::new(
        kind,
        Json::object().with("protocol", Json::text("acp")).with(
            "session_id",
            Json::text(session_id),
        ).with(name, value),
    )
}

/// The string form of a JSON-RPC id.
fn id_to_string(id: &Json) -> (r: String)
    ensures
        r@ == id_text(id@),
{
    match id {
        Json::Text(text) => text.clone(),
        other => other.to_string(),
    }
}

impl AcpBridge {
    /// Allocates the next outbound JSON-RPC id for `pending`.
    fn request(&mut self, pending: Pending, method: &str, params: Json) -> (r: Action)
        ensures
            (final(self)@, r@) == acp_request(old(self)@, pending, method@, params@),
    {
        let id: u64 = self.next_id;
        self.next_id = id.wrapping_add(1);
        let _ = self.pending.insert(id, pending);
        let line = Json::object().with("jsonrpc", Json::text("2.0")).with(
            "id",
            Json::unsigned(id),
        ).with("method", Json::text(method)).with("params", params).to_string();
        proof {
            assert(self@ =~= acp_request(old(self)@, pending, method@, params@).0);
        }
        Action::Write(line)
    }

    /// The client capabilities advertised in `initialize`.
    fn client_capabilities() -> (r: Json)
        ensures
            r@ == capabilities(),
    {
        Json::object().with(
            "fs",
            Json::object().with("readTextFile", Json::Bool(false)).with(
                "writeTextFile",
                Json::Bool(false),
            ),
        ).with("terminal", Json::Bool(false))
    }

    /// Handles an inbound request (one with a `method` and an `id`).
    fn on_request(&mut self, id: &Json, method: &str, params: Json) -> (r: Vec<Action>)
        ensures
            (final(self)@, action_views(r@)) == acp_on_request(
                old(self)@,
                id@,
                method@,
                params@,
            ),
    {
        let tool_call = params.copy_field("toolCall");
        let options = params.copy_field("options");
        let message = Json::object().with("jsonrpc", Json::text("2.0")).with(
            "id",
            id.clone(),
        ).with("method", Json::text(method)).with("params", params);
        let published = Action::Publish(protocol_inbound("acp", &message));
        if text::same(method, "session/request_permission") {
            let request_id = id_to_string(id);
            let event = Event::new(
                SESSION_PERMISSION_REQUESTED,
                Json::object().with("protocol", Json::text("acp")).with(
                    "session_id",
                    Json::text(self.session_id.as_str()),
                ).with("request_id", Json::text(request_id.as_str())).with(
                    "tool_call",
                    tool_call,
                ).with("options", options),
            );
            self.inbound.insert(request_id, id.clone());
            proof {
                assert(self@.inbound =~= old(self)@.inbound.insert(id_text(id@), id@));
            }
            two_actions(published, Action::Publish(event))
        } else {
            // No other client capability is advertised, so any other request is
            // answered with JSON-RPC's `Method not found` rather than left
            // hanging on the agent's pending id.
            let line = Json::object().with("jsonrpc", Json::text("2.0")).with(
                "id",
                id.clone(),
            ).with(
                "error",
                Json::object().with("code", Json::integer(-32601)).with(
                    "message",
                    Json::text(text::concat("method not supported: ", method).as_str()),
                ),
            ).to_string();
            two_actions(published, Action::Write(line))
        }
    }

    /// The handshake was rejected.
    fn reject(&mut self, published: Action, error: Json) -> (r: Vec<Action>)
        ensures
            (final(self)@, action_views(r@)) == acp_rejected(old(self)@, published@, error@),
    {
        self.phase = Phase::Failed;
        let event = report(PROTOCOL_FAILED, self.session_id.as_str(), "error", error);
        two_actions(published, Action::Publish(event))
    }

    /// Handles an inbound response (one with an `id` and `result`/`error`),
    /// advancing the handshake and publishing the message.
    fn on_response(&mut self, id: u64, message: &Json) -> (r: Vec<Action>)
        ensures
            (final(self)@, action_views(r@)) == acp_on_response(old(self)@, id, message@),
    {
        let published = Action::Publish(protocol_inbound("acp", message));
        let answered = self.pending.remove(&id);
        let ghost rest = self@;
        proof {
            if old(self)@.pending.contains_key(id) {
                assert(rest =~= AcpState {
                    pending: old(self)@.pending.remove(id),
                    ..old(self)@
                });
            } else {
                assert(rest.pending =~= old(self)@.pending);
            }
        }
        match answered {
            None => one_action(published),
            Some(Pending::Initialize) => match message.get("error") {
                Some(error) => self.reject(published, error.clone()),
                None => {
                    self.phase = Phase::Initialized;
                    let servers: Vec<Json> = Vec::new();
                    let empty = Json::Array(servers);
                    proof {
                        assert(empty@->Array_0 =~= Seq::<JsonValue>::empty());
                    }
                    let params = Json::object().with(
                        "cwd",
                        Json::text(self.workdir.as_str()),
                    ).with("mcpServers", empty);
                    let write = self.request(Pending::NewSession, "session/new", params);
                    two_actions(published, write)
                },
            },
            Some(Pending::NewSession) => match message.get("error") {
                Some(error) => self.reject(published, error.clone()),
                None => {
                    let found = match message.get("result") {
                        Some(result) => match result.get_str("sessionId") {
                            Some(session) => Some(session.to_owned()),
                            None => None,
                        },
                        None => None,
                    };
                    let ready = found.is_some();
                    self.acp_session_id = found;
                    if ready {
                        self.phase = Phase::Ready;
                        let event = Event::new(
                            PROTOCOL_READY,
                            Json::object().with("protocol", Json::text("acp")).with(
                                "session_id",
                                Json::text(self.session_id.as_str()),
                            ),
                        );
                        two_actions(published, Action::Publish(event))
                    } else {
                        one_action(published)
                    }
                },
            },
            Some(Pending::Prompt) => {
                self.phase = Phase::Ready;
                // A prompt response that carries an error is a failed turn, not
                // a completed one: reporting it as completed with a null stop
                // reason would claim the model answered.
                let event = match message.get("error") {
                    Some(error) => report(
                        PROMPT_FAILED,
                        self.session_id.as_str(),
                        "error",
                        error.clone(),
                    ),
                    None => {
                        let reason = match message.get("result") {
                            Some(result) => result.copy_field("stopReason"),
                            None => Json::Null,
                        };
                        report(
                            PROMPT_COMPLETED,
                            self.session_id.as_str(),
                            "stop_reason",
                            reason,
                        )
                    },
                };
                two_actions(published, Action::Publish(event))
            },
        }
    }

    /// Answers a pending permission request under its original id: with the
    /// option the decision selected, or with a cancellation when nobody
    /// decided.
    ///
    /// The outcome follows the event kind, not the payload: ACP can only select
    /// one of the options the child offered or cancel, so a `granted` and a
    /// `denied` are the same reply to the child and differ only in which option
    /// the approver chose.
    fn on_permission_decision(&mut self, event: &Event) -> (r: Vec<Action>)
        ensures
            (final(self)@, action_views(r@)) == acp_on_decision(
                old(self)@,
                event@.kind,
                event@.data,
            ),
    {
        let request_id = match event.data.get_str("request_id") {
            Some(request_id) => request_id,
            None => return no_actions(),
        };
        match self.inbound.remove(request_id) {
            None => {
                proof {
                    assert(self@.inbound =~= old(self)@.inbound);
                }
                no_actions()
            },
            Some(id) => {
                proof {
                    assert(self@.inbound =~= old(self)@.inbound.remove(request_id@));
                }
                let cancelled = text::same(event.kind.as_str(), SESSION_PERMISSION_CANCELLED);
                let outcome = match event.data.get_str("option_id") {
                    Some(option_id) => {
                        if cancelled {
                            Json::object().with("outcome", Json::text("cancelled"))
                        } else {
                            Json::object().with("outcome", Json::text("selected")).with(
                                "optionId",
                                Json::text(option_id),
                            )
                        }
                    },
                    None => Json::object().with("outcome", Json::text("cancelled")),
                };
                let line = Json::object().with("jsonrpc", Json::text("2.0")).with("id", id).with(
                    "result",
                    Json::object().with("outcome", outcome),
                ).to_string();
                one_action(Action::Write(line))
            },
        }
    }

    /// Starts a prompt turn from a routed [`PROMPT_REQUESTED`] event.
    fn on_prompt(&mut self, event: &Event) -> (r: Vec<Action>)
        ensures
            (final(self)@, action_views(r@)) == acp_on_prompt(old(self)@, event@.data),
    {
        let session = match &self.acp_session_id {
            Some(session) => session.clone(),
            None => return no_actions(),
        };
        if self.phase != Phase::Ready {
            return no_actions();
        }
        let prompt = event.data.copy_field("prompt");
        self.phase = Phase::Prompting;
        let params = Json::object().with("sessionId", Json::text(session.as_str())).with(
            "prompt",
            prompt,
        );
        let write = self.request(Pending::Prompt, "session/prompt", params);
        one_action(write)
    }

    /// Converts one JSON-RPC message of the agent into actions.
    pub fn on_message(&mut self, message: &Json) -> (r: Vec<Action>)
        ensures
            (final(self)@, action_views(r@)) == acp_on_message(old(self)@, message@),
    {
        match message.get_str("method") {
            Some(method) => match message.get("id") {
                Some(id) => {
                    if id.is_null() {
                        one_action(Action::Publish(protocol_inbound("acp", message)))
                    } else {
                        let params = message.copy_field("params");
                        self.on_request(id, method, params)
                    }
                },
                // A notification (no id) is only published.
                None => one_action(Action::Publish(protocol_inbound("acp", message))),
            },
            None => match message.get_u64("id") {
                Some(id) => self.on_response(id, message),
                None => one_action(Action::Publish(protocol_inbound("acp", message))),
            },
        }
    }
}

impl Bridge for AcpBridge {
    fn start(&mut self) -> (r: Vec<Action>)
        ensures
            (final(self)@, action_views(r@)) == (
                acp_start(old(self)@).0,
                seq![acp_start(old(self)@).1],
            ),
    {
        let params = Json::object().with(
            "protocolVersion",
            Json::unsigned(self.protocol_version as u64),
        ).with("clientCapabilities", AcpBridge::client_capabilities()).with(
            "clientInfo",
            client_info_json(self.client_name.as_str()),
        );
        let write = self.request(Pending::Initialize, "initialize", params);
        one_action(write)
    }

    fn on_event(&mut self, event: &Event) -> (r: Vec<Action>)
        ensures
            (final(self)@, action_views(r@)) == acp_on_event(old(self)@, event@),
    {
        let kind = event.kind.as_str();
        if text::same(kind, PROMPT_REQUESTED) {
            self.on_prompt(event)
        } else if is_permission_decision(kind) {
            self.on_permission_decision(event)
        } else if text::same(kind, PROTOCOL_OUTBOUND) {
            render_outbound("acp", &event.data)
        } else {
            no_actions()
        }
    }

    fn on_line(&mut self, line: &str) -> (r: Vec<Action>)
        ensures
            (final(self)@, action_views(r@)) == match rpc_message(json::json_parsed(line@)) {
                Some(message) => acp_on_message(old(self)@, message),
                None => (old(self)@, Seq::empty()),
            },
    {
        match parse_message(line) {
            Some(message) => self.on_message(&message),
            None => no_actions(),
        }
    }
}

} // verus!
