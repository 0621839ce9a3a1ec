//! What lists stand for: each of their items, in order.

use crate::confinement::{self, FsEntry, HostPort};
use crate::events::event_of;
use crate::json::JsonValue;
use crate::policy::{self, CommandPrefix, EnvVar, Limits, Pattern, Policy};
use crate::text;
use crate::vpath::{self, VPath};
use vstd::prelude::*;

verus! {

/// A list of strings, of paths, of patterns, or of prefixes stands for the texts of
/// its items.
pub proof fn lists_stand_for_their_texts(
    strings: Seq<String>,
    paths: Seq<VPath>,
    patterns: Seq<Pattern>,
    prefixes: Seq<CommandPrefix>,
    i: int,
)
    ensures
        text::views(strings).len() == strings.len(),
        0 <= i < strings.len() ==> text::views(strings)[i] == strings[i]@,
        vpath::path_views(paths).len() == paths.len(),
        0 <= i < paths.len() ==> vpath::path_views(paths)[i] == paths[i]@,
        policy::pattern_views(patterns).len() == patterns.len(),
        0 <= i < patterns.len() ==> policy::pattern_views(patterns)[i] == patterns[i]@,
        policy::prefix_views(prefixes).len() == prefixes.len(),
        0 <= i < prefixes.len() ==> policy::prefix_views(prefixes)[i] == prefixes[i]@,
{
}

/// A rule stands for its path and its access, a destination for its host and its
/// port, a variable for its name and its value.
pub proof fn pairs_keep_both_sides(
    entries: Seq<FsEntry>,
    destinations: Seq<HostPort>,
    env: Seq<EnvVar>,
    i: int,
)
    ensures
        confinement::entry_views(entries).len() == entries.len(),
        0 <= i < entries.len() ==> confinement::entry_views(entries)[i] == (
            entries[i].path@,
            entries[i].access,
        ),
        confinement::destination_views(destinations).len() == destinations.len(),
        0 <= i < destinations.len() ==> confinement::destination_views(destinations)[i] == (
            destinations[i].host@,
            destinations[i].port,
        ),
        policy::env_views(env).len() == env.len(),
        0 <= i < env.len() ==> policy::env_views(env)[i] == (env[i].name@, env[i].value@),
{
}

/// A text that may be absent stands for itself.
pub proof fn absence_stays_absence(text: String)
    ensures
        text::opt_view(Some(text)) == Some(text@),
        text::opt_view(None) is None,
{
}

/// A policy that grants nothing has nothing in it; limits that were not named leave a
/// command a minute, a thousand commands, and a mebibyte of output.
pub proof fn the_default_grants_nothing(policy: Policy, limits: Limits)
    ensures
        policy::is_inert(&policy) <==> policy.fs.mounts@.len() == 0 && policy.fs.refuse@.len() == 0
            && policy.fs.hide@.len() == 0 && policy.fs.deny_read@.len() == 0
            && policy.fs.max_total_bytes is None && policy.fs.max_file_bytes is None
            && policy.shell.allow@.len() == 0 && policy.shell.env@.len() == 0
            && policy.shell.workdir@.len() == 0,
        policy::are_default_limits(limits) <==> limits.timeout.whole() == 60
            && limits.timeout.rest() == 0 && limits.max_command_count == 1000
            && limits.max_output_bytes == 1024 * 1024 && limits.max_memory_bytes is None,
{
}

/// An event of a kind carries its payload and is about nothing in particular.
pub proof fn an_event_carries_its_payload(kind: Seq<char>, data: JsonValue)
    ensures
        event_of(kind, data).kind == kind,
        event_of(kind, data).data == data,
        event_of(kind, data).subject is None,
        event_of(kind, data).traceparent is None,
{
}

} // verus!
