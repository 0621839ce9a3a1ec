//! What the first setup promises.

use crate::auth::{self, Claim};
use crate::hostpath;
use crate::ids;
use crate::init::{self, ClientToken, InitError, Setup, SetupProbe};
use crate::server::{self, DirectoryProbe};
use vstd::prelude::*;

verus! {

broadcast use vstd::string::group_string_axioms;

/// The user may read and publish; the agent may ask for inference as well, and the
/// administrator has authority. Each of them publishes under its own source.
pub proof fn clients_hold_what_they_need(secrets: Seq<Seq<char>>, claim: Claim)
    ensures
        ({
            let tokens = init::client_tokens(secrets);
            &&& tokens.len() == 3
            &&& tokens[0].0 == secrets[0] && tokens[1].0 == secrets[1] && tokens[2].0 == secrets[2]
            &&& tokens[0].1.source == "urn:mokmokd:user"@
            &&& tokens[1].1.source == "urn:mokmokd:agent"@
            &&& tokens[2].1.source == "urn:mokmokd:admin"@
            &&& tokens[0].1.claims.contains(claim) <==> claim == Claim::Read || claim
                == Claim::Publish
            &&& tokens[1].1.claims.contains(claim) <==> claim == Claim::Read || claim
                == Claim::Publish || claim == Claim::Infer
            &&& tokens[2].1.claims.contains(claim) <==> claim == Claim::Read || claim
                == Claim::Publish || claim == Claim::Authority
        }),
{
}

/// A directory that others may write to is refused, an existing token file is kept
/// unless it is forced, and in every other case the setup goes through; it is not
/// the provider config that stops it, and that is left alone where there is one.
pub proof fn a_setup_keeps_what_is_there(
    dir: Seq<char>,
    force: bool,
    probe: SetupProbe,
    secrets: Seq<Seq<char>>,
    r: Result<Setup, InitError>,
)
    requires
        init::setup_answer(dir, force, probe, secrets, r),
    ensures
        ({
            let shared = match probe.directory {
                DirectoryProbe::Present(Some(mode)) => (mode / 16) % 2 == 1 || (mode / 2) % 2 == 1,
                _ => false,
            };
            let kept = probe.tokens_exist && !force;
            &&& shared ==> r is Err && r->Err_0 is InsecureDirectory
                && r->Err_0->InsecureDirectory_0@ == dir
            &&& !shared && kept ==> r is Err && r->Err_0 is Exists && r->Err_0->Exists_0@
                == hostpath::joined(dir, "tokens.json"@)
            &&& !shared && !kept ==> {
                &&& r is Ok
                &&& r->Ok_0.create_directory <==> probe.directory is Missing
                &&& auth::entry_tokens(r->Ok_0.entries@) == init::client_tokens(secrets)
                &&& r->Ok_0.initialized.config_dir@ == dir
                &&& r->Ok_0.initialized.tokens_path@ == hostpath::joined(dir, "tokens.json"@)
                &&& r->Ok_0.initialized.providers_path@ == hostpath::joined(dir, "providers.json"@)
                &&& r->Ok_0.initialized.providers_created <==> !probe.providers_exist
                &&& init::are_clients(r->Ok_0.initialized.clients@, dir, secrets)
            }
        }),
{
    let mode = match probe.directory {
        DirectoryProbe::Present(Some(mode)) => mode,
        _ => 0,
    };
    server::shared_means_group_or_other_write(mode);
}

/// Each client gets its own file, named after it, with its own secret.
pub proof fn each_client_gets_its_own_file(
    clients: Seq<ClientToken>,
    dir: Seq<char>,
    secrets: Seq<Seq<char>>,
)
    requires
        init::are_clients(clients, dir, secrets),
    ensures
        clients.len() == 3,
        clients[0].name@ == "user"@ && clients[1].name@ == "agent"@ && clients[2].name@ == "admin"@,
        clients[0].secret@ == secrets[0] && clients[1].secret@ == secrets[1] && clients[2].secret@
            == secrets[2],
        clients[0].path@ == hostpath::joined(dir, "user"@ + ".token"@),
        clients[1].path@ == hostpath::joined(dir, "agent"@ + ".token"@),
        clients[2].path@ == hostpath::joined(dir, "admin"@ + ".token"@),
{
}

/// A secret is sixty-four hexadecimal digits.
pub proof fn secrets_are_hexadecimal(secret: Seq<char>, i: int)
    requires
        init::is_secret(secret),
        0 <= i < secret.len(),
    ensures
        secret.len() == 64,
        '0' <= secret[i] <= '9' || 'a' <= secret[i] <= 'f',
{
    if i < 32 {
        assert(secret.take(32)[i] == secret[i]);
    } else {
        assert(secret.skip(32)[i - 32] == secret[i]);
    }
}

/// An identifier is thirty-two hexadecimal digits with its version and variant in
/// their places, with or without hyphens between its groups.
pub proof fn identifiers_have_their_form(text: Seq<char>, version: char, i: int)
    ensures
        ids::is_uuid(text, version) ==> text.len() == 36 && text[8] == '-' && text[13] == '-'
            && text[18] == '-' && text[23] == '-' && text[14] == version && "89ab"@.contains(
            text[19],
        ),
        ids::is_uuid(text, version) && 0 <= i < 36 && i != 8 && i != 13 && i != 18 && i != 23
            ==> '0' <= text[i] <= '9' || 'a' <= text[i] <= 'f',
        ids::is_simple_uuid(text, version) ==> text.len() == 32 && text[12] == version
            && "89ab"@.contains(text[16]),
        ids::is_simple_uuid(text, version) && 0 <= i < 32 ==> '0' <= text[i] <= '9' || 'a'
            <= text[i] <= 'f',
{
    reveal_strlit("89ab");
    let digits = "89ab"@;
    assert(digits[0] == '8' && digits[1] == '9' && digits[2] == 'a' && digits[3] == 'b');
}

/// A directory that is made up lies under its parent, behind its prefix, under an
/// identifier of the time-ordered kind.
pub proof fn a_fresh_directory_has_its_own_name(
    parent: Seq<char>,
    prefix: Seq<char>,
    path: Seq<char>,
    id: Seq<char>,
)
    ensures
        ids::is_uuid(id, '7') ==> ids::is_fresh_directory(
            hostpath::joined(parent, prefix + id),
            parent,
            prefix,
        ),
        ids::is_fresh_directory(path, parent, prefix) ==> exists|named: Seq<char>|
            #[trigger] ids::is_uuid(named, '7') && path == hostpath::joined(parent, prefix + named),
{
}

} // verus!
