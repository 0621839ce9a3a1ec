//! What the permission flow of a command promises.

use crate::error::SandboxError;
use crate::events::EventValue;
use crate::executor::{DenialReason, ExecResult};
use crate::guard;
use crate::json::{self, JsonValue};
use crate::policy::{self, Policy};
use crate::sandbox::{
    self, ExecAction, ExecEvent, Phase, Record, Sandbox, EXEC_COMPLETED, PERMISSION_DENIED,
    PERMISSION_GRANTED, PERMISSION_REQUESTED,
};
use crate::shell::{self, Reading};
use crate::text;
use vstd::prelude::*;

verus! {

broadcast use vstd::string::group_string_axioms;

/// What the executor made of a command is handed back as it is once its completion
/// was recorded: the same output, exit code and denial. The completion tells the
/// exit code, the duration, the length of each output, and the denial.
pub proof fn the_executors_result_is_returned(
    policy: Policy,
    used: u32,
    tokens: Option<Seq<Seq<char>>>,
    result: ExecResult,
    elapsed: u128,
)
    requires
        vstd::utf8::encode_utf8(result.stdout@).len() <= u64::MAX,
        vstd::utf8::encode_utf8(result.stderr@).len() <= u64::MAX,
    ensures
        ({
            let (completing, counted, append) = sandbox::policy_step(
                policy,
                Phase::Running,
                used,
                tokens,
                ExecEvent::Ran(result, elapsed),
            );
            let (done, left, answer) = sandbox::policy_step(
                policy,
                completing,
                counted,
                tokens,
                ExecEvent::Recorded,
            );
            &&& append is Append
            &&& append->Append_0 is Completed
            &&& append->Append_0->exit_code == result.exit_code
            &&& append->Append_0->denied_by == result.denied_by
            &&& append->Append_0->stdout_bytes == vstd::utf8::encode_utf8(result.stdout@).len()
            &&& append->Append_0->stderr_bytes == vstd::utf8::encode_utf8(result.stderr@).len()
            &&& elapsed <= u64::MAX ==> append->Append_0->duration_ms == elapsed
            &&& elapsed > u64::MAX ==> append->Append_0->duration_ms == u64::MAX
            &&& answer == ExecAction::Return(result)
            &&& done is Done
            &&& counted == used
            &&& left == used
        }),
{
}

/// A command whose tokens start with those of an allowed prefix is granted and then
/// run, as long as the count is not used up; each request uses up one of the count.
pub proof fn an_admitted_command_runs(
    policy: Policy,
    used: u32,
    tokens: Seq<Seq<char>>,
    i: int,
    prefix: Seq<Seq<char>>,
    rest: Seq<Seq<char>>,
)
    requires
        used < policy.limits.max_command_count,
        0 <= i < policy.shell.allow@.len(),
        shell::shell_words(policy.shell.allow@[i]@) == Some(prefix),
        tokens == prefix + rest,
    ensures
        ({
            let (granting, counted, append) = sandbox::policy_step(
                policy,
                Phase::Requesting,
                used,
                Some(tokens),
                ExecEvent::Recorded,
            );
            let (running, left, run) = sandbox::policy_step(
                policy,
                granting,
                counted,
                Some(tokens),
                ExecEvent::Recorded,
            );
            &&& append == ExecAction::Append(Record::Granted)
            &&& run == ExecAction::Run
            &&& running is Running
            &&& counted == used + 1
            &&& left == used + 1
        }),
{
    let allow = shell::prefix_tokens(policy::prefix_views(policy.shell.allow@));
    assert(allow[i] == Some(prefix));
    assert(prefix =~= tokens.subrange(0, prefix.len() as int));
}

/// A command that no allowed prefix begins is refused for it, and a command beyond
/// the count is refused for that, whatever the list says. Nothing runs; the refusal
/// is recorded and handed back, and it too uses up one of the count.
pub proof fn every_other_command_is_refused(
    policy: Policy,
    used: u32,
    tokens: Option<Seq<Seq<char>>>,
)
    requires
        used >= policy.limits.max_command_count || (forall|i: int, words: Seq<Seq<char>>|
            0 <= i < policy.shell.allow@.len() && #[trigger] shell::shell_words(
                #[trigger] policy.shell.allow@[i]@,
            ) == Some(words) && tokens is Some ==> !(words.len() <= tokens->0.len() && words
                =~= #[trigger] tokens->0.take(words.len() as int))),
    ensures
        ({
            let (denying, counted, append) = sandbox::policy_step(
                policy,
                Phase::Requesting,
                used,
                tokens,
                ExecEvent::Recorded,
            );
            let (done, left, refusal) = sandbox::policy_step(
                policy,
                denying,
                counted,
                tokens,
                ExecEvent::Recorded,
            );
            &&& append == ExecAction::Append(Record::Denied)
            &&& refusal == ExecAction::Refuse(
                if used >= policy.limits.max_command_count {
                    DenialReason::CommandCountExceeded
                } else {
                    DenialReason::CommandNotAllowed
                },
            )
            &&& done is Done
            &&& used < u32::MAX ==> counted == used + 1
            &&& left == counted
        }),
{
    let allow = shell::prefix_tokens(policy::prefix_views(policy.shell.allow@));
    if used < policy.limits.max_command_count && shell::admits(allow, tokens) {
        let i = choose|i: int|
            0 <= i < allow.len() && (#[trigger] allow[i]) is Some && allow[i]->0.is_prefix_of(
                tokens->0,
            );
        let words = allow[i]->0;
        assert(shell::shell_words(policy.shell.allow@[i]@) == Some(words));
        assert(words =~= tokens->0.subrange(0, words.len() as int));
        assert(words =~= tokens->0.take(words.len() as int));
    }
}

/// A record that cannot be kept ends the command with that error, wherever it
/// stands; nothing runs after it.
pub proof fn a_lost_record_ends_the_command(
    policy: Policy,
    phase: Phase,
    used: u32,
    tokens: Option<Seq<Seq<char>>>,
    error: String,
)
    requires
        !(phase is Running) && !(phase is Done),
    ensures
        sandbox::policy_step(policy, phase, used, tokens, ExecEvent::RecordFailed(error)) == (
            Phase::Done,
            used,
            ExecAction::Fail(SandboxError::Publish(error)),
        ),
{
}

/// A command that is over stays over.
pub proof fn a_finished_command_stays_finished(
    policy: Policy,
    used: u32,
    tokens: Option<Seq<Seq<char>>>,
    event: ExecEvent,
)
    ensures
        sandbox::policy_step(policy, Phase::Done, used, tokens, event) == (
            Phase::Done,
            used,
            ExecAction::Ignore,
        ),
{
}

/// Every entry of the trail names the sandbox, the agent and the command; a decision
/// says which it is, and a completion how the command ended.
pub proof fn the_trail_names_the_command(
    sandbox_id: Seq<char>,
    agent_id: Seq<char>,
    command: Seq<char>,
    record: Record,
)
    ensures
        ({
            let event = sandbox::record_event(sandbox_id, agent_id, command, record);
            let own = map![
                "sandbox_id"@ => JsonValue::Text(sandbox_id),
                "agent_id"@ => JsonValue::Text(agent_id),
                "subject"@ => JsonValue::Text(command),
            ];
            &&& event.subject is None
            &&& event.traceparent is None
            &&& match record {
                Record::Requested => event.kind == PERMISSION_REQUESTED@ && event.data
                    == JsonValue::Object(own),
                Record::Granted => event.kind == PERMISSION_GRANTED@ && event.data
                    == JsonValue::Object(own.insert("decision"@, JsonValue::Text("granted"@))),
                Record::Denied => event.kind == PERMISSION_DENIED@ && event.data
                    == JsonValue::Object(own.insert("decision"@, JsonValue::Text("denied"@))),
                Record::Completed {
                    exit_code,
                    duration_ms,
                    stdout_bytes,
                    stderr_bytes,
                    denied_by,
                } => event.kind == EXEC_COMPLETED@ && event.data == JsonValue::Object(
                    own.insert(
                        "exit_code"@,
                        JsonValue::Number(json::integer_text(exit_code as int)),
                    ).insert(
                        "duration_ms"@,
                        JsonValue::Number(text::decimal(duration_ms as nat)),
                    ).insert(
                        "stdout_bytes"@,
                        JsonValue::Number(text::decimal(stdout_bytes as nat)),
                    ).insert(
                        "stderr_bytes"@,
                        JsonValue::Number(text::decimal(stderr_bytes as nat)),
                    ).insert(
                        "denied_by"@,
                        match denied_by {
                            None => JsonValue::Null,
                            Some(DenialReason::CommandNotAllowed) => JsonValue::Text(
                                "command_not_allowed"@,
                            ),
                            Some(DenialReason::CommandCountExceeded) => JsonValue::Text(
                                "command_count_exceeded"@,
                            ),
                        },
                    ),
                ),
            }
        }),
{
}

/// Every prefix of the list counts, wherever it stands: a command that begins with
/// its tokens is admitted, and an admitted command begins with the tokens of one.
pub proof fn every_prefix_of_the_list_counts(
    allow: Seq<Option<Seq<Seq<char>>>>,
    tokens: Seq<Seq<char>>,
)
    ensures
        forall|i: int|
            #![trigger allow[i]]
            0 <= i < allow.len() && allow[i] is Some && allow[i]->0.len() <= tokens.len() && (
            forall|k: int| 0 <= k < allow[i]->0.len() ==> allow[i]->0[k] == #[trigger] tokens[k])
                ==> shell::admits(allow, Some(tokens)),
        shell::admits(allow, Some(tokens)) ==> exists|i: int|
            #![trigger allow[i]]
            0 <= i < allow.len() && allow[i] is Some && allow[i]->0.len() <= tokens.len() && (
            forall|k: int| 0 <= k < allow[i]->0.len() ==> allow[i]->0[k] == #[trigger] tokens[k]),
        !shell::admits(allow, None),
{
    assert forall|i: int|
        #![trigger allow[i]]
        0 <= i < allow.len() && allow[i] is Some && allow[i]->0.len() <= tokens.len() && (forall|
            k: int,
        |
            0 <= k < allow[i]->0.len() ==> allow[i]->0[k] == #[trigger] tokens[k])
        implies shell::admits(allow, Some(tokens)) by {
        let prefix = allow[i]->0;
        assert forall|k: int| 0 <= k < prefix.len() implies prefix[k] == tokens.subrange(
            0,
            prefix.len() as int,
        )[k] by {
            assert(tokens[k] == prefix[k]);
        }
        assert(prefix =~= tokens.subrange(0, prefix.len() as int));
    }
    if shell::admits(allow, Some(tokens)) {
        let i = choose|i: int|
            0 <= i < allow.len() && (#[trigger] allow[i]) is Some && allow[i]->0.is_prefix_of(
                tokens,
            );
        let prefix = allow[i]->0;
        assert forall|k: int| 0 <= k < prefix.len() implies prefix[k] == #[trigger] tokens[k] by {
            assert(prefix[k] == tokens.subrange(0, prefix.len() as int)[k]);
        }
    }
}

/// The list is read entry by entry, and a command that is plain by its words.
pub proof fn lists_and_commands_are_read_as_words(
    allow: Seq<Seq<char>>,
    command: Seq<char>,
)
    requires
        shell::is_plain(command),
    ensures
        shell::prefix_tokens(allow).len() == allow.len(),
        forall|i: int|
            0 <= i < allow.len() ==> #[trigger] shell::prefix_tokens(allow)[i]
                == shell::shell_words(allow[i]),
        shell::command_tokens(command) == shell::shell_words(command),
{
}

/// Quoting makes any text a part of a plain command: between single quotes, after a
/// backslash, and, but for what a shell expands there, between double quotes.
pub proof fn quoting_protects(before: Seq<char>, inner: Seq<char>, c: char)
    requires
        shell::read_through(before) == Some(Reading::Plain),
    ensures
        !inner.contains('\'') ==> shell::read_through(before.push('\'') + inner.push('\'')) == Some(
            Reading::Plain,
        ),
        shell::read_through(before.push('\\').push(c)) == Some(Reading::Plain),
        !inner.contains('"') && !inner.contains('$') && !inner.contains('`') && !inner.contains(
            '\\',
        ) ==> shell::read_through(before.push('"') + inner.push('"')) == Some(Reading::Plain),
{
    assert(before.push('\\').drop_last() =~= before);
    assert(shell::read_through(before.push('\\')) == Some(Reading::Escaped));
    assert(before.push('\\').push(c).drop_last() =~= before.push('\\'));
    if !inner.contains('\'') {
        lemma_quoted(before, inner, '\'', Reading::Single);
        let whole = before.push('\'') + inner.push('\'');
        assert(whole.drop_last() =~= before.push('\'') + inner);
    }
    if !inner.contains('"') && !inner.contains('$') && !inner.contains('`') && !inner.contains(
        '\\',
    ) {
        lemma_quoted(before, inner, '"', Reading::Double);
        let whole = before.push('"') + inner.push('"');
        assert(whole.drop_last() =~= before.push('"') + inner);
    }
}

proof fn lemma_quoted(before: Seq<char>, inner: Seq<char>, quote: char, reading: Reading)
    requires
        shell::read_through(before) == Some(Reading::Plain),
        (quote == '\'' && reading == Reading::Single) || (quote == '"' && reading
            == Reading::Double && !inner.contains('$') && !inner.contains('`') && !inner.contains(
            '\\',
        )),
        !inner.contains(quote),
    ensures
        shell::read_through(before.push(quote) + inner) == Some(reading),
    decreases inner.len(),
{
    let whole = before.push(quote) + inner;
    if inner.len() == 0 {
        assert(whole =~= before.push(quote));
        assert(before.push(quote).drop_last() =~= before);
    } else {
        let shorter = inner.drop_last();
        assert forall|c: char| shorter.contains(c) implies #[trigger] inner.contains(c) by {
            let k = choose|k: int| 0 <= k < shorter.len() && shorter[k] == c;
            assert(inner[k] == c);
        }
        assert(inner.contains(inner.last())) by {
            assert(inner[inner.len() - 1] == inner.last());
        }
        lemma_quoted(before, shorter, quote, reading);
        assert(whole.drop_last() =~= before.push(quote) + shorter);
        assert(whole.last() == inner.last());
    }
}

/// A sandbox is built from a policy whose globs all compile, for its agent, with no
/// command counted yet, and screens by those globs; otherwise the first bad list is
/// named.
pub proof fn a_sandbox_runs_under_its_policy(
    policy: Policy,
    agent_id: Seq<char>,
    r: Result<Sandbox, SandboxError>,
    path: Seq<Seq<char>>,
)
    requires
        sandbox::sandbox_answer(policy, agent_id, r),
    ensures
        ({
            let refuse = policy::pattern_views(policy.fs.refuse@);
            let hide = policy::pattern_views(policy.fs.hide@);
            let first = guard::globs_error(refuse);
            let second = guard::globs_error(hide);
            &&& first is Some ==> r is Err && r->Err_0 is InvalidPolicy
                && r->Err_0->InvalidPolicy_0@ == first->0
            &&& first is None && second is Some ==> r is Err && r->Err_0 is InvalidPolicy
                && r->Err_0->InvalidPolicy_0@ == second->0
            &&& first is None && second is None ==> {
                &&& r is Ok
                &&& r->Ok_0.agent() == agent_id
                &&& r->Ok_0.rules() == policy
                &&& r->Ok_0.used() == 0
                &&& r->Ok_0.screening(path) == guard::full_access(refuse, hide, path)
            }
        }),
{
}

/// Outside quotes an operator, a redirection, a substitution, or a line end is more
/// than a word can hold; no other character is.
pub proof fn operators_are_no_words(c: char)
    ensures
        shell::is_syntax(c) <==> ";&|<>()$`\n"@.contains(c),
        shell::is_plain(seq![c]) <==> !";&|<>()$`\n"@.contains(c),
{
    reveal_strlit(";&|<>()$`\n");
    let signs = ";&|<>()$`\n"@;
    assert(signs[0] == ';' && signs[1] == '&' && signs[2] == '|' && signs[3] == '<' && signs[4]
        == '>' && signs[5] == '(' && signs[6] == ')' && signs[7] == '$' && signs[8] == '`'
        && signs[9] == '\n' && signs.len() == 10);
    assert(seq![c].drop_last() =~= Seq::empty());
    assert(shell::read_through(seq![c].drop_last()) == Some(shell::Reading::Plain));
}

/// A command is admitted when it holds no shell syntax, can be read as words, and
/// begins with the words of some entry of the list, wherever that entry stands.
pub proof fn a_command_is_admitted_by_its_words(allow: Seq<Seq<char>>, command: Seq<char>)
    ensures
        shell::allows(allow, command) <==> {
            &&& shell::read_through(command) is Some
            &&& shell::shell_words(command) is Some
            &&& exists|i: int|
                0 <= i < allow.len() && shell::shell_words(#[trigger] allow[i]) is Some
                    && shell::shell_words(allow[i])->0.is_prefix_of(
                    shell::shell_words(command)->0,
                )
        },
{
    let prefixes = shell::prefix_tokens(allow);
    if shell::allows(allow, command) {
        let tokens = shell::shell_words(command)->0;
        let i = choose|i: int|
            0 <= i < prefixes.len() && (#[trigger] prefixes[i]) is Some
                && prefixes[i]->0.is_prefix_of(tokens);
        assert(shell::shell_words(allow[i]) == prefixes[i]);
    }
    if exists|i: int|
        0 <= i < allow.len() && shell::shell_words(#[trigger] allow[i]) is Some
            && shell::shell_words(allow[i])->0.is_prefix_of(shell::shell_words(command)->0) {
        let i = choose|i: int|
            0 <= i < allow.len() && shell::shell_words(#[trigger] allow[i]) is Some
                && shell::shell_words(allow[i])->0.is_prefix_of(shell::shell_words(command)->0);
        assert(prefixes[i] is Some);
    }
}

/// Words that may be absent, and lists of them, stand for their texts.
pub proof fn words_stand_for_their_texts(
    words: Vec<String>,
    prefixes: Seq<Option<Vec<String>>>,
    i: int,
)
    ensures
        shell::words_view(Some(words)) == Some(text::views(words@)),
        shell::words_view(None) is None,
        shell::token_views(prefixes).len() == prefixes.len(),
        0 <= i < prefixes.len() ==> shell::token_views(prefixes)[i] == shell::words_view(
            prefixes[i],
        ),
{
}

} // verus!
