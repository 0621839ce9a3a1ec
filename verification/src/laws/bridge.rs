//! What a bridge promises its child, its approver and the log.

use crate::bridge::{
    self, AcpBridge, AcpConfig, AcpProtocol, AcpState, Action, ActionValue, McpBridge, McpConfig,
    McpProtocol, Pending, Phase, Protocol, PROMPT_COMPLETED, PROMPT_FAILED, PROMPT_REQUESTED,
    PROTOCOL_FAILED, PROTOCOL_INBOUND, PROTOCOL_OUTBOUND, PROTOCOL_READY,
    SESSION_PERMISSION_CANCELLED, SESSION_PERMISSION_DENIED, SESSION_PERMISSION_GRANTED,
    SESSION_PERMISSION_REQUESTED,
};
use crate::events::EventValue;
use crate::json::{self, JsonValue};
use crate::text;
use vstd::prelude::*;

verus! {

broadcast use vstd::string::group_string_axioms;

/// The answer to a permission request under `id`, with this outcome.
pub open spec fn answered(id: JsonValue, outcome: JsonValue) -> Seq<ActionValue> {
    seq![
        ActionValue::Write(
            json::json_rendered(
                JsonValue::Object(
                    map![
                        "jsonrpc"@ => JsonValue::Text("2.0"@),
                        "id"@ => id,
                        "result"@ => JsonValue::Object(map!["outcome"@ => outcome]),
                    ],
                ),
            ),
        ),
    ]
}

/// What the log is told of a message of the child.
pub open spec fn told(protocol: Seq<char>, message: JsonValue) -> ActionValue {
    ActionValue::Publish(
        EventValue {
            kind: PROTOCOL_INBOUND@,
            subject: None,
            traceparent: None,
            data: JsonValue::Object(
                map!["protocol"@ => JsonValue::Text(protocol), "message"@ => message],
            ),
        },
    )
}

/// A request that an ACP bridge writes to its agent.
pub open spec fn written(id: u64, method: Seq<char>, params: JsonValue) -> ActionValue {
    ActionValue::Write(
        json::json_rendered(
            JsonValue::Object(
                map![
                    "jsonrpc"@ => JsonValue::Text("2.0"@),
                    "id"@ => JsonValue::Number(text::decimal(id as nat)),
                    "method"@ => JsonValue::Text(method),
                    "params"@ => params,
                ],
            ),
        ),
    )
}

/// What the log is told of an ACP session.
pub open spec fn reported(
    kind: Seq<char>,
    fields: Map<Seq<char>, JsonValue>,
) -> ActionValue {
    ActionValue::Publish(
        EventValue {
            kind,
            subject: None,
            traceparent: None,
            data: JsonValue::Object(fields),
        },
    )
}

/// Whether events are alike for a bridge: only the kind and the data count.
pub open spec fn is_event(
    event: EventValue,
    kind: Seq<char>,
    fields: Map<Seq<char>, JsonValue>,
) -> bool {
    event.kind == kind && event.data == JsonValue::Object(fields)
}

/// A grant and a refusal that name a pending request and an option are the same
/// reply to the child: the option is selected, under the id the child asked with.
/// The request is pending no longer, and nothing else changes.
pub proof fn the_chosen_option_reaches_the_child(
    state: AcpState,
    event: EventValue,
    fields: Map<Seq<char>, JsonValue>,
    request_id: Seq<char>,
    option_id: Seq<char>,
)
    requires
        is_event(event, SESSION_PERMISSION_GRANTED@, fields) || is_event(
            event,
            SESSION_PERMISSION_DENIED@,
            fields,
        ),
        state.inbound.contains_key(request_id),
        fields.contains_key("request_id"@),
        fields["request_id"@] == JsonValue::Text(request_id),
        fields.contains_key("option_id"@),
        fields["option_id"@] == JsonValue::Text(option_id),
    ensures
        bridge::acp_on_event(state, event) == (
            AcpState { inbound: state.inbound.remove(request_id), ..state },
            answered(
                state.inbound[request_id],
                JsonValue::Object(
                    map![
                        "outcome"@ => JsonValue::Text("selected"@),
                        "optionId"@ => JsonValue::Text(option_id),
                    ],
                ),
            ),
        ),
{
    lemma_decision_kinds();
}

/// A withdrawn request is answered as cancelled, whatever else the withdrawal
/// carries; so is a decision that names no option.
pub proof fn a_withdrawal_reaches_the_child(
    state: AcpState,
    event: EventValue,
    fields: Map<Seq<char>, JsonValue>,
    request_id: Seq<char>,
)
    requires
        is_event(event, SESSION_PERMISSION_CANCELLED@, fields) || (!fields.contains_key(
            "option_id"@,
        ) && (is_event(event, SESSION_PERMISSION_GRANTED@, fields) || is_event(
            event,
            SESSION_PERMISSION_DENIED@,
            fields,
        ))),
        state.inbound.contains_key(request_id),
        fields.contains_key("request_id"@),
        fields["request_id"@] == JsonValue::Text(request_id),
    ensures
        bridge::acp_on_event(state, event) == (
            AcpState { inbound: state.inbound.remove(request_id), ..state },
            answered(
                state.inbound[request_id],
                JsonValue::Object(map!["outcome"@ => JsonValue::Text("cancelled"@)]),
            ),
        ),
{
    lemma_decision_kinds();
}

/// A decision on a request that is not pending does nothing.
pub proof fn a_stray_decision_does_nothing(
    state: AcpState,
    event: EventValue,
    fields: Map<Seq<char>, JsonValue>,
)
    requires
        is_event(event, SESSION_PERMISSION_GRANTED@, fields) || is_event(
            event,
            SESSION_PERMISSION_DENIED@,
            fields,
        ) || is_event(event, SESSION_PERMISSION_CANCELLED@, fields),
        fields.contains_key("request_id"@) ==> !(exists|request_id: Seq<char>|
            fields["request_id"@] == JsonValue::Text(request_id)
                && #[trigger] state.inbound.contains_key(request_id)),
    ensures
        bridge::acp_on_event(state, event) == (state, Seq::<ActionValue>::empty()),
{
    lemma_decision_kinds();
}

/// A permission request of the agent is told to the log with the session, the tool
/// call and the options, under an id that is the agent's own id as a text; the
/// agent's id is kept to answer under, and nothing else changes.
pub proof fn permission_requests_are_put_to_the_approver(
    state: AcpState,
    fields: Map<Seq<char>, JsonValue>,
    params: Map<Seq<char>, JsonValue>,
    request_id: Seq<char>,
)
    requires
        fields.contains_key("method"@),
        fields["method"@] == JsonValue::Text("session/request_permission"@),
        fields.contains_key("id"@),
        fields["id"@] == JsonValue::Text(request_id) || fields["id"@] == JsonValue::Number(
            request_id,
        ),
        fields.contains_key("params"@),
        fields["params"@] == JsonValue::Object(params),
        params.contains_key("toolCall"@),
        params.contains_key("options"@),
    ensures
        ({
            let (after, actions) = bridge::acp_on_message(state, JsonValue::Object(fields));
            &&& after == AcpState {
                inbound: state.inbound.insert(request_id, fields["id"@]),
                ..state
            }
            &&& actions.len() == 2
            &&& actions[0] == told(
                "acp"@,
                JsonValue::Object(
                    map![
                        "jsonrpc"@ => JsonValue::Text("2.0"@),
                        "id"@ => fields["id"@],
                        "method"@ => fields["method"@],
                        "params"@ => fields["params"@],
                    ],
                ),
            )
            &&& actions[1] == reported(
                SESSION_PERMISSION_REQUESTED@,
                map![
                    "protocol"@ => JsonValue::Text("acp"@),
                    "session_id"@ => JsonValue::Text(state.session_id),
                    "request_id"@ => JsonValue::Text(request_id),
                    "tool_call"@ => params["toolCall"@],
                    "options"@ => params["options"@],
                ],
            )
        }),
{
}

/// Any other request of the agent is told to the log and answered as not supported,
/// under its id; the bridge does not change.
pub proof fn other_requests_are_refused(
    state: AcpState,
    fields: Map<Seq<char>, JsonValue>,
    method: Seq<char>,
)
    requires
        fields.contains_key("method"@),
        fields["method"@] == JsonValue::Text(method),
        method != "session/request_permission"@,
        fields.contains_key("id"@),
        !(fields["id"@] is Null),
    ensures
        ({
            let (after, actions) = bridge::acp_on_message(state, JsonValue::Object(fields));
            &&& after == state
            &&& actions.len() == 2
            &&& actions[1] == ActionValue::Write(
                json::json_rendered(
                    JsonValue::Object(
                        map![
                            "jsonrpc"@ => JsonValue::Text("2.0"@),
                            "id"@ => fields["id"@],
                            "error"@ => JsonValue::Object(
                                map![
                                    "code"@ => JsonValue::Number("-32601"@),
                                    "message"@ => JsonValue::Text(
                                        "method not supported: "@ + method,
                                    ),
                                ],
                            ),
                        ],
                    ),
                ),
            )
        }),
{
    assert(json::integer_text(-32601) =~= "-32601"@) by {
        reveal_strlit("-32601");
        reveal_with_fuel(text::decimal, 6);
        assert(text::decimal(32601) =~= seq!['3', '2', '6', '0', '1']);
    }
}

/// A notification, a message without method and id, and a response that nothing
/// awaits are told to the log as they are, and do nothing else.
pub proof fn other_messages_are_only_told(state: AcpState, fields: Map<Seq<char>, JsonValue>)
    requires
        fields.contains_key("method"@) ==> fields["method"@] is Text,
        fields.contains_key("id"@) ==> {
            ||| fields["id"@] is Null
            ||| !fields.contains_key("method"@) && forall|id: u64| #[trigger]
                state.pending.contains_key(id) ==> fields["id"@] != JsonValue::Number(
                    text::decimal(id as nat),
                ) && json::as_unsigned(fields["id"@]) != Some(id)
        },
    ensures
        bridge::acp_on_message(state, JsonValue::Object(fields)) == (
            state,
            seq![told("acp"@, JsonValue::Object(fields))],
        ),
{
}

/// What the client says of itself in the handshake.
pub open spec fn client(name: Seq<char>) -> JsonValue {
    JsonValue::Object(
        map!["name"@ => JsonValue::Text(name), "version"@ => JsonValue::Text("0.1.0"@)],
    )
}

/// The whole ACP exchange of a turn: the handshake announces the client and asks
/// for a session in the working directory, the session is told to be ready, a
/// prompt is sent to it as it was asked for, and the end of the turn is told with
/// the agent's reason. Every message of the agent is told to the log, and the ids
/// count up from zero.
pub proof fn a_turn_goes_from_handshake_to_stop_reason(
    config: AcpConfig,
    session_id: Seq<char>,
    workdir: Seq<char>,
    first: Map<Seq<char>, JsonValue>,
    second: Map<Seq<char>, JsonValue>,
    created: Map<Seq<char>, JsonValue>,
    agent_session: Seq<char>,
    prompt: EventValue,
    asked: Map<Seq<char>, JsonValue>,
    third: Map<Seq<char>, JsonValue>,
    finished: Map<Seq<char>, JsonValue>,
)
    requires
        is_response(first, 0) && !first.contains_key("error"@),
        is_response(second, 1) && !second.contains_key("error"@),
        second.contains_key("result"@) && second["result"@] == JsonValue::Object(created),
        created.contains_key("sessionId"@) && created["sessionId"@] == JsonValue::Text(
            agent_session,
        ),
        is_event(prompt, PROMPT_REQUESTED@, asked),
        asked.contains_key("prompt"@),
        is_response(third, 2) && !third.contains_key("error"@),
        third.contains_key("result"@) && third["result"@] == JsonValue::Object(finished),
        finished.contains_key("stopReason"@),
    ensures
        ({
            let fresh = bridge::acp_fresh(config, session_id, workdir);
            let (started, opening) = bridge::acp_start(fresh);
            let (initialized, one) = bridge::acp_on_message(started, JsonValue::Object(first));
            let (ready, two) = bridge::acp_on_message(initialized, JsonValue::Object(second));
            let (prompting, turn) = bridge::acp_on_event(ready, prompt);
            let (again, three) = bridge::acp_on_message(prompting, JsonValue::Object(third));
            let (next, following) = bridge::acp_on_event(again, prompt);
            &&& opening == written(
                0,
                "initialize"@,
                JsonValue::Object(
                    map![
                        "protocolVersion"@ => JsonValue::Number(
                            text::decimal(config.protocol_version as nat),
                        ),
                        "clientCapabilities"@ => JsonValue::Object(
                            map![
                                "fs"@ => JsonValue::Object(
                                    map![
                                        "readTextFile"@ => JsonValue::Bool(false),
                                        "writeTextFile"@ => JsonValue::Bool(false),
                                    ],
                                ),
                                "terminal"@ => JsonValue::Bool(false),
                            ],
                        ),
                        "clientInfo"@ => client(config.client_name),
                    ],
                ),
            )
            &&& one == seq![
                told("acp"@, JsonValue::Object(first)),
                written(
                    1,
                    "session/new"@,
                    JsonValue::Object(
                        map![
                            "cwd"@ => JsonValue::Text(workdir),
                            "mcpServers"@ => JsonValue::Array(Seq::empty()),
                        ],
                    ),
                ),
            ]
            &&& two == seq![
                told("acp"@, JsonValue::Object(second)),
                reported(
                    PROTOCOL_READY@,
                    map![
                        "protocol"@ => JsonValue::Text("acp"@),
                        "session_id"@ => JsonValue::Text(session_id),
                    ],
                ),
            ]
            &&& turn == seq![
                written(
                    2,
                    "session/prompt"@,
                    JsonValue::Object(
                        map![
                            "sessionId"@ => JsonValue::Text(agent_session),
                            "prompt"@ => asked["prompt"@],
                        ],
                    ),
                ),
            ]
            &&& three == seq![
                told("acp"@, JsonValue::Object(third)),
                reported(
                    PROMPT_COMPLETED@,
                    map![
                        "protocol"@ => JsonValue::Text("acp"@),
                        "session_id"@ => JsonValue::Text(session_id),
                        "stop_reason"@ => finished["stopReason"@],
                    ],
                ),
            ]
            &&& following == seq![
                written(
                    3,
                    "session/prompt"@,
                    JsonValue::Object(
                        map![
                            "sessionId"@ => JsonValue::Text(agent_session),
                            "prompt"@ => asked["prompt"@],
                        ],
                    ),
                ),
            ]
        }),
{
    lemma_decision_kinds();
    json::integers_read_back(0);
    json::integers_read_back(1);
    json::integers_read_back(2);
}

/// Whether an object is a response under an id.
pub open spec fn is_response(fields: Map<Seq<char>, JsonValue>, id: u64) -> bool {
    !fields.contains_key("method"@) && fields.contains_key("id"@) && fields["id"@]
        == JsonValue::Number(text::decimal(id as nat))
}

/// A turn that the agent answers with an error is told as failed, with that error,
/// and the next prompt may be sent.
pub proof fn a_failed_turn_is_told_with_its_error(
    state: AcpState,
    id: u64,
    fields: Map<Seq<char>, JsonValue>,
)
    requires
        state.pending.contains_key(id),
        state.pending[id] == Pending::Prompt,
        is_response(fields, id),
        fields.contains_key("error"@),
    ensures
        bridge::acp_on_message(state, JsonValue::Object(fields)) == (
            AcpState { pending: state.pending.remove(id), phase: Phase::Ready, ..state },
            seq![
                told("acp"@, JsonValue::Object(fields)),
                reported(
                    PROMPT_FAILED@,
                    map![
                        "protocol"@ => JsonValue::Text("acp"@),
                        "session_id"@ => JsonValue::Text(state.session_id),
                        "error"@ => fields["error"@],
                    ],
                ),
            ],
        ),
{
    json::integers_read_back(id);
}

/// A handshake that the agent answers with an error is told as failed, with that
/// error.
pub proof fn a_failed_handshake_is_told_with_its_error(
    state: AcpState,
    id: u64,
    fields: Map<Seq<char>, JsonValue>,
)
    requires
        state.pending.contains_key(id),
        state.pending[id] == Pending::Initialize || state.pending[id] == Pending::NewSession,
        is_response(fields, id),
        fields.contains_key("error"@),
    ensures
        bridge::acp_on_message(state, JsonValue::Object(fields)) == (
            AcpState { pending: state.pending.remove(id), phase: Phase::Failed, ..state },
            seq![
                told("acp"@, JsonValue::Object(fields)),
                reported(
                    PROTOCOL_FAILED@,
                    map![
                        "protocol"@ => JsonValue::Text("acp"@),
                        "session_id"@ => JsonValue::Text(state.session_id),
                        "error"@ => fields["error"@],
                    ],
                ),
            ],
        ),
{
    json::integers_read_back(id);
}

/// A message that an event carries for the child's protocol is written to the
/// child as it is, if it is a JSON-RPC 2.0 message; one for another protocol, or
/// of another kind, is not written. The bridge does not change.
pub proof fn messages_for_the_child_are_written(
    state: AcpState,
    event: EventValue,
    fields: Map<Seq<char>, JsonValue>,
    protocol: Seq<char>,
    message: Map<Seq<char>, JsonValue>,
)
    requires
        is_event(event, PROTOCOL_OUTBOUND@, fields),
        fields.contains_key("protocol"@) && fields["protocol"@] == JsonValue::Text(protocol),
        fields.contains_key("message"@) && fields["message"@] == JsonValue::Object(message),
    ensures
        ({
            let rpc = message.contains_key("jsonrpc"@) && message["jsonrpc"@]
                == JsonValue::Text("2.0"@);
            let line = seq![ActionValue::Write(json::json_rendered(JsonValue::Object(message)))];
            &&& bridge::acp_on_event(state, event).0 == state
            &&& rpc && protocol == "acp"@ ==> bridge::acp_on_event(state, event).1 == line
            &&& !rpc || protocol != "acp"@ ==> bridge::acp_on_event(state, event).1.len() == 0
            &&& rpc && protocol == "mcp"@ ==> bridge::mcp_on_event(event) == line
            &&& !rpc || protocol != "mcp"@ ==> bridge::mcp_on_event(event).len() == 0
        }),
{
    lemma_decision_kinds();
}

/// An event that is neither a prompt, nor a decision, nor a message for the child
/// does nothing.
pub proof fn other_events_do_nothing(state: AcpState, event: EventValue)
    requires
        event.kind != PROMPT_REQUESTED@,
        event.kind != PROTOCOL_OUTBOUND@,
        event.kind != SESSION_PERMISSION_GRANTED@,
        event.kind != SESSION_PERMISSION_DENIED@,
        event.kind != SESSION_PERMISSION_CANCELLED@,
    ensures
        bridge::acp_on_event(state, event) == (state, Seq::<ActionValue>::empty()),
        bridge::mcp_on_event(event) == Seq::<ActionValue>::empty(),
{
}

/// An MCP bridge opens with its version and client, tells the log every message of
/// the child, and acknowledges exactly the answer to its opening.
pub proof fn an_mcp_handshake_is_acknowledged(
    config: McpConfig,
    fields: Map<Seq<char>, JsonValue>,
    id: u64,
)
    requires
        fields.contains_key("id"@) ==> fields["id"@] == JsonValue::Number(
            text::decimal(id as nat),
        ),
    ensures
        bridge::mcp_initialize(config) == JsonValue::Object(
            map![
                "jsonrpc"@ => JsonValue::Text("2.0"@),
                "id"@ => JsonValue::Number("0"@),
                "method"@ => JsonValue::Text("initialize"@),
                "params"@ => JsonValue::Object(
                    map![
                        "protocolVersion"@ => JsonValue::Text(config.protocol_version),
                        "capabilities"@ => JsonValue::Object(Map::empty()),
                        "clientInfo"@ => client(config.client_name),
                    ],
                ),
            ],
        ),
        bridge::mcp_on_message(JsonValue::Object(fields)) == if fields.contains_key("id"@) && id == 0
            && (fields.contains_key("result"@) || fields.contains_key("error"@)) {
            seq![
                told("mcp"@, JsonValue::Object(fields)),
                ActionValue::Write(
                    json::json_rendered(
                        JsonValue::Object(
                            map![
                                "jsonrpc"@ => JsonValue::Text("2.0"@),
                                "method"@ => JsonValue::Text("notifications/initialized"@),
                            ],
                        ),
                    ),
                ),
            ]
        } else {
            seq![told("mcp"@, JsonValue::Object(fields))]
        },
{
    json::integers_read_back(id);
    reveal_strlit("0");
    assert(text::decimal(0) =~= "0"@) by {
        reveal_with_fuel(text::decimal, 2);
    }
}

/// Only a JSON-RPC 2.0 message counts as one.
pub proof fn only_rpc_messages_are_read(fields: Map<Seq<char>, JsonValue>)
    ensures
        bridge::rpc_message(Some(JsonValue::Object(fields))) == if fields.contains_key("jsonrpc"@)
            && fields["jsonrpc"@] == JsonValue::Text("2.0"@) {
            Some(JsonValue::Object(fields))
        } else {
            None
        },
        bridge::rpc_message(None) is None,
{
}

proof fn lemma_decision_kinds()
    ensures
        SESSION_PERMISSION_GRANTED@ != SESSION_PERMISSION_CANCELLED@,
        SESSION_PERMISSION_DENIED@ != SESSION_PERMISSION_CANCELLED@,
        PROMPT_REQUESTED@ != SESSION_PERMISSION_GRANTED@,
        PROMPT_REQUESTED@ != SESSION_PERMISSION_DENIED@,
        PROMPT_REQUESTED@ != SESSION_PERMISSION_CANCELLED@,
        PROMPT_REQUESTED@ != PROTOCOL_OUTBOUND@,
        PROTOCOL_OUTBOUND@ != SESSION_PERMISSION_GRANTED@,
        PROTOCOL_OUTBOUND@ != SESSION_PERMISSION_DENIED@,
        PROTOCOL_OUTBOUND@ != SESSION_PERMISSION_CANCELLED@,
{
    reveal_strlit("session.permission.granted");
    reveal_strlit("session.permission.denied");
    reveal_strlit("session.permission.cancelled");
    assert(SESSION_PERMISSION_GRANTED@.len() == 26);
    assert(SESSION_PERMISSION_DENIED@.len() == 25);
    assert(SESSION_PERMISSION_CANCELLED@.len() == 28);
    reveal_strlit("session.prompt.requested");
    reveal_strlit("session.protocol.outbound");
    assert(PROMPT_REQUESTED@.len() == 24);
    assert(PROTOCOL_OUTBOUND@.len() == 25);
    assert(PROTOCOL_OUTBOUND@[9] == 'r' && SESSION_PERMISSION_DENIED@[9] == 'e');
}

/// A decision names the request and the option; a withdrawal names the request alone.
pub proof fn a_decision_names_its_request(request_id: Seq<char>, option_id: Seq<char>)
    ensures
        bridge::granted_event(request_id, option_id) == (EventValue {
            kind: "session.permission.granted"@,
            subject: None,
            traceparent: None,
            data: JsonValue::Object(
                map![
                    "request_id"@ => JsonValue::Text(request_id),
                    "decision"@ => JsonValue::Text("granted"@),
                    "option_id"@ => JsonValue::Text(option_id),
                ],
            ),
        }),
        bridge::denied_event(request_id, option_id) == (EventValue {
            kind: "session.permission.denied"@,
            subject: None,
            traceparent: None,
            data: JsonValue::Object(
                map![
                    "request_id"@ => JsonValue::Text(request_id),
                    "decision"@ => JsonValue::Text("denied"@),
                    "option_id"@ => JsonValue::Text(option_id),
                ],
            ),
        }),
        bridge::withdrawn_event(request_id) == (EventValue {
            kind: "session.permission.cancelled"@,
            subject: None,
            traceparent: None,
            data: JsonValue::Object(
                map![
                    "request_id"@ => JsonValue::Text(request_id),
                    "decision"@ => JsonValue::Text("cancelled"@),
                    "cancelled"@ => JsonValue::Bool(true),
                ],
            ),
        }),
{
}

/// What an approver decides, allowing or refusing, is the option that the child is
/// answered with under the id it asked by; the request is then settled.
pub proof fn an_approvers_decision_reaches_the_child(
    state: AcpState,
    request_id: Seq<char>,
    option_id: Seq<char>,
)
    requires
        state.inbound.contains_key(request_id),
    ensures
        ({
            let settled = (
                AcpState { inbound: state.inbound.remove(request_id), ..state },
                answered(
                    state.inbound[request_id],
                    JsonValue::Object(
                        map![
                            "outcome"@ => JsonValue::Text("selected"@),
                            "optionId"@ => JsonValue::Text(option_id),
                        ],
                    ),
                ),
            );
            &&& bridge::acp_on_event(state, bridge::granted_event(request_id, option_id)) == settled
            &&& bridge::acp_on_event(state, bridge::denied_event(request_id, option_id)) == settled
        }),
{
    reveal_strlit("request_id");
    reveal_strlit("decision");
    reveal_strlit("option_id");
    assert("request_id"@.len() == 10 && "decision"@.len() == 8 && "option_id"@.len() == 9);
    let granted = bridge::granted_event(request_id, option_id);
    let denied = bridge::denied_event(request_id, option_id);
    the_chosen_option_reaches_the_child(
        state,
        granted,
        granted.data->Object_0,
        request_id,
        option_id,
    );
    the_chosen_option_reaches_the_child(
        state,
        denied,
        denied.data->Object_0,
        request_id,
        option_id,
    );
}

/// A prompt carries its blocks as they are, for the protocol that it is meant for.
pub proof fn a_prompt_carries_its_blocks(blocks: JsonValue)
    ensures
        bridge::prompt_event(blocks) == (EventValue {
            kind: "session.prompt.requested"@,
            subject: None,
            traceparent: None,
            data: JsonValue::Object(
                map!["protocol"@ => JsonValue::Text("acp"@), "prompt"@ => blocks],
            ),
        }),
{
}

/// Requests are told apart by the text of their ids; steps stand for what they are, in
/// order.
pub proof fn ids_are_their_text(text: Seq<char>, actions: Seq<Action>, i: int)
    ensures
        bridge::id_text(JsonValue::Text(text)) == text,
        bridge::id_text(JsonValue::Number(text)) == text,
        bridge::action_views(actions).len() == actions.len(),
        0 <= i < actions.len() ==> bridge::action_views(actions)[i] == actions[i]@,
{
}

/// A machine is made for its session: it speaks as its protocol is configured, has
/// asked nothing, and was asked nothing.
pub proof fn a_machine_is_made_for_its_session(
    acp: AcpProtocol,
    agent: AcpBridge,
    mcp: McpProtocol,
    server: McpBridge,
    session_id: Seq<char>,
    workdir: Seq<char>,
)
    requires
        acp.connects(session_id, workdir, agent),
        mcp.connects(session_id, workdir, server),
    ensures
        agent@.session_id == session_id,
        agent@.workdir == workdir,
        agent@.config == acp@,
        agent@.phase == Phase::Started,
        agent@.next_id == 0,
        agent@.acp_session_id is None,
        agent@.pending == Map::<u64, Pending>::empty(),
        agent@.inbound == Map::<Seq<char>, JsonValue>::empty(),
        server@ == mcp@,
{
}

} // verus!
