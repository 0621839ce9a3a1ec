//! First-run setup: the private config directory and the capability tokens the
//! daemon and its clients need.
//!
//! Only the token file is required to be hand-made; the socket, its parent
//! directory, and the log are created by the daemon on startup. The setup
//! consists of a `tokens.json` and one single-secret file per client, all mode
//! `0600`, so the clients can be pointed at them directly. The secrets are
//! handed back so they can be shown once, never logged.

use crate::auth::{self, Claim, PrincipalValue, TokenFileEntry};
use crate::hostpath;
use crate::ids;
use crate::server::{self, is_shared_directory, DirectoryProbe};
use crate::text;
use vstd::prelude::*;

verus! {

broadcast use vstd::string::group_string_axioms;

/// The token file name inside the config directory.
pub const TOKEN_FILE: &'static str = "tokens.json";

/// The provider config file name inside the config directory.
pub const PROVIDERS_FILE: &'static str = "providers.json";

/// The provider config written on first init.
///
/// It names only a keyless local server, so the daemon starts without any
/// credential; a cloud provider is added by editing the file. Writing a provider
/// with an `api_key_env` here would make serving fail until that variable is
/// set, so the template deliberately omits one.
pub const PROVIDERS_TEMPLATE: &'static str = "{
  \"providers\": {
    \"local\": {
      \"kind\": \"open_ai_compatible\",
      \"base_url\": \"http://127.0.0.1:11434/v1\"
    }
  },
  \"models\": {},
  \"default_model\": null
}
";

/// One generated client: its name, secret, and single-secret file.
#[derive(Clone)]
pub struct ClientToken {
    /// The client's role, e.g. `agent`.
    pub name: String,
    /// The bearer secret.
    pub secret: String,
    /// The mode-`0600` file holding only this secret.
    pub path: String,
}

/// The result of the setup.
#[derive(Clone)]
pub struct Initialized {
    /// The config directory the files are written to.
    pub config_dir: String,
    /// The daemon's token file.
    pub tokens_path: String,
    /// The provider config file.
    pub providers_path: String,
    /// Whether the provider template is written (`false` when one already
    /// existed and is left untouched).
    pub providers_created: bool,
    /// The generated clients.
    pub clients: Vec<ClientToken>,
}

/// What the setup writes: the directory if it is missing, the token file with
/// these entries, each client's file with its secret, and the provider template
/// if there is no provider config.
pub struct Setup {
    /// Whether the config directory is to be created first.
    pub create_directory: bool,
    /// The entries of the token file.
    pub entries: Vec<TokenFileEntry>,
    /// The result, once everything is written.
    pub initialized: Initialized,
}

/// Errors returned by the setup.
#[derive(Debug)]
pub enum InitError {
    /// Creating a directory or file failed.
    Io(String),
    /// The token file already exists and overwriting it was not asked for, so
    /// an existing set of capabilities is never silently overwritten.
    Exists(String),
    /// The config directory is writable by other users.
    InsecureDirectory(String),
    /// The token file could not be serialized.
    Json(String),
}

/// The error in words.
pub open spec fn init_error_text(error: InitError) -> Seq<char> {
    match error {
        InitError::Io(error) => error@,
        InitError::Exists(path) => path@ + " already exists; pass --force to overwrite it"@,
        InitError::InsecureDirectory(path) => "the config directory "@ + path@
            + " is writable by other users"@,
        InitError::Json(error) => "failed to encode the token file: "@ + error@,
    }
}

impl InitError {
    /// The error in words.
    pub fn to_string(&self) -> (r: String)
        ensures
            r@ == match *self {
                InitError::Io(error) => error@,
                InitError::Exists(path) => path@ + " already exists; pass --force to overwrite it"@,
                InitError::InsecureDirectory(path) => "the config directory "@ + path@
                    + " is writable by other users"@,
                InitError::Json(error) => "failed to encode the token file: "@ + error@,
            },
            r@ == init_error_text(*self),
    {
        match self {
            InitError::Io(error) => error.clone(),
            InitError::Exists(path) => text::concat(
                path.as_str(),
                " already exists; pass --force to overwrite it",
            ),
            InitError::InsecureDirectory(path) => {
                let start = text::concat("the config directory ", path.as_str());
                text::concat(start.as_str(), " is writable by other users")
            },
            InitError::Json(error) => text::concat(
                "failed to encode the token file: ",
                error.as_str(),
            ),
        }
    }
}

/// The names of the generated clients.
pub open spec fn client_names() -> Seq<Seq<char>> {
    seq!["user"@, "agent"@, "admin"@]
}

/// What each client is granted, and the source its events carry.
pub open spec fn client_principals() -> Seq<PrincipalValue> {
    seq![
        PrincipalValue {
            claims: set![Claim::Read, Claim::Publish],
            source: "urn:mokmokd:user"@,
        },
        PrincipalValue {
            claims: set![Claim::Read, Claim::Publish, Claim::Infer],
            source: "urn:mokmokd:agent"@,
        },
        PrincipalValue {
            claims: set![Claim::Read, Claim::Publish, Claim::Authority],
            source: "urn:mokmokd:admin"@,
        },
    ]
}

/// The tokens of the clients under these secrets.
pub open spec fn client_tokens(secrets: Seq<Seq<char>>) -> Seq<(Seq<char>, PrincipalValue)> {
    Seq::new(3, |i: int| (secrets[i], client_principals()[i]))
}

/// Whether clients are the generated ones, with these secrets and files under a
/// directory.
pub open spec fn are_clients(
    clients: Seq<ClientToken>,
    dir: Seq<char>,
    secrets: Seq<Seq<char>>,
) -> bool {
    &&& clients.len() == 3
    &&& forall|i: int|
        0 <= i < 3 ==> {
            &&& (#[trigger] clients[i]).name@ == client_names()[i]
            &&& clients[i].secret@ == secrets[i]
            &&& clients[i].path@ == hostpath::joined(dir, client_names()[i] + ".token"@)
        }
}

/// What is known of the config directory.
#[derive(Clone, Copy, Debug, PartialEq, Eq, Structural)]
pub struct SetupProbe {
    /// The directory itself.
    pub directory: DirectoryProbe,
    /// Whether the token file exists.
    pub tokens_exist: bool,
    /// Whether the provider config exists.
    pub providers_exist: bool,
}

/// Whether the config directory is refused: it exists and is writable by others.
pub open spec fn refused(directory: DirectoryProbe) -> bool {
    match directory {
        DirectoryProbe::Missing => false,
        DirectoryProbe::Present(Some(mode)) => server::is_shared(mode),
        DirectoryProbe::Present(None) => false,
    }
}

/// Whether a result is the answer to the setup of a directory under secrets: a
/// shared directory is refused, an existing token file is kept unless it is
/// forced, and otherwise every client gets its token and file. The provider
/// config is only ever created.
pub open spec fn setup_answer(
    dir: Seq<char>,
    force: bool,
    probe: SetupProbe,
    secrets: Seq<Seq<char>>,
    r: Result<Setup, InitError>,
) -> bool {
    if refused(probe.directory) {
        r is Err && r->Err_0 is InsecureDirectory && r->Err_0->InsecureDirectory_0@ == dir
    } else if probe.tokens_exist && !force {
        r is Err && r->Err_0 is Exists && r->Err_0->Exists_0@ == hostpath::joined(dir, TOKEN_FILE@)
    } else {
        &&& r is Ok
        &&& r->Ok_0.create_directory == (probe.directory == DirectoryProbe::Missing)
        &&& auth::entry_tokens(r->Ok_0.entries@) == client_tokens(secrets)
        &&& r->Ok_0.initialized.config_dir@ == dir
        &&& r->Ok_0.initialized.tokens_path@ == hostpath::joined(dir, TOKEN_FILE@)
        &&& r->Ok_0.initialized.providers_path@ == hostpath::joined(dir, PROVIDERS_FILE@)
        &&& r->Ok_0.initialized.providers_created == !probe.providers_exist
        &&& are_clients(r->Ok_0.initialized.clients@, dir, secrets)
    }
}

/// The token file that the setup writes grants each client its claims, and no
/// other, as long as the secrets are distinct.
pub proof fn each_client_gets_its_claims(secrets: Seq<Seq<char>>, i: int)
    requires
        secrets.len() == 3,
        secrets.no_duplicates(),
        0 <= i < 3,
    ensures
        auth::principal_of(client_tokens(secrets), secrets[i]) == Some(client_principals()[i]),
{
    let tokens = client_tokens(secrets);
    reveal_with_fuel(auth::principal_of, 4);
    assert(secrets[0] != secrets[1] && secrets[1] != secrets[2] && secrets[0] != secrets[2]);
    assert(tokens.drop_last().last() == tokens[1]);
    assert(tokens.drop_last().drop_last().last() == tokens[0]);
}

/// Only the administrator's token has authority, and only the agent's may ask
/// for inference; all of them read and publish.
pub proof fn authority_is_the_administrators_alone(i: int)
    requires
        0 <= i < 3,
    ensures
        client_principals()[i].claims.contains(Claim::Authority) <==> i == 2,
        client_principals()[i].claims.contains(Claim::Infer) <==> i == 1,
        client_principals()[i].claims.contains(Claim::Read),
        client_principals()[i].claims.contains(Claim::Publish),
{
}

/// Whether a text is a bearer secret: two random UUIDs in hexadecimal.
pub open spec fn is_secret(text: Seq<char>) -> bool {
    &&& text.len() == 64
    &&& ids::is_simple_uuid(text.take(32), '4')
    &&& ids::is_simple_uuid(text.skip(32), '4')
}

/// Generates a bearer secret as hex.
pub fn generate_secret() -> (r: String)
    ensures
        is_secret(r@),
{
    let first = ids::random_id();
    let second = ids::random_id();
    let secret = text::concat(first.as_str(), second.as_str());
    proof {
        assert(secret@.take(32) =~= first@);
        assert(secret@.skip(32) =~= second@);
    }
    secret
}

fn entry(secret: &str, claims: Vec<Claim>, source: &str) -> (r: TokenFileEntry)
    ensures
        r.secret@ == secret@,
        r.claims == claims,
        r.source@ == source@,
{
    TokenFileEntry { secret: secret.to_owned(), claims, source: source.to_owned() }
}

fn client(dir: &str, name: &str, secret: &str) -> (r: ClientToken)
    ensures
        r.name@ == name@,
        r.secret@ == secret@,
        r.path@ == hostpath::joined(dir@, name@ + ".token"@),
{
    let file = text::concat(name, ".token");
    ClientToken {
        name: name.to_owned(),
        secret: secret.to_owned(),
        path: hostpath::join(dir, file.as_str()),
    }
}

/// The setup of the config directory `dir` with these secrets, one per client.
pub fn plan(dir: &str, force: bool, probe: SetupProbe, secrets: &[String; 3]) -> (r: Result<
    Setup,
    InitError,
>)
    ensures
        setup_answer(dir@, force, probe, text::views(secrets@), r),
{
    let create_directory = match probe.directory {
        DirectoryProbe::Missing => true,
        DirectoryProbe::Present(mode) => {
            if is_shared_directory(mode) {
                return Err(InitError::InsecureDirectory(dir.to_owned()));
            }
            false
        },
    };
    let tokens_path = hostpath::join(dir, TOKEN_FILE);
    if probe.tokens_exist && !force {
        return Err(InitError::Exists(tokens_path));
    }
    let ghost views = text::views(secrets@);
    let user: Vec<Claim> = vec![Claim::Read, Claim::Publish];
    let agent: Vec<Claim> = vec![Claim::Read, Claim::Publish, Claim::Infer];
    let admin: Vec<Claim> = vec![Claim::Read, Claim::Publish, Claim::Authority];
    proof {
        assert(user@ =~= seq![Claim::Read, Claim::Publish]);
        assert(agent@ =~= seq![Claim::Read, Claim::Publish, Claim::Infer]);
        assert(admin@ =~= seq![Claim::Read, Claim::Publish, Claim::Authority]);
        lemma_claims(user@, client_principals()[0].claims);
        lemma_claims(agent@, client_principals()[1].claims);
        lemma_claims(admin@, client_principals()[2].claims);
    }
    let mut entries: Vec<TokenFileEntry> = Vec::new();
    entries.push(entry(secrets[0].as_str(), user, "urn:mokmokd:user"));
    entries.push(entry(secrets[1].as_str(), agent, "urn:mokmokd:agent"));
    entries.push(entry(secrets[2].as_str(), admin, "urn:mokmokd:admin"));
    let mut clients: Vec<ClientToken> = Vec::new();
    clients.push(client(dir, "user", secrets[0].as_str()));
    clients.push(client(dir, "agent", secrets[1].as_str()));
    clients.push(client(dir, "admin", secrets[2].as_str()));
    proof {
        assert(views[0] == secrets@[0]@ && views[1] == secrets@[1]@ && views[2] == secrets@[2]@);
        assert(auth::entry_tokens(entries@) =~= client_tokens(views));
        assert(are_clients(clients@, dir@, views));
    }
    let initialized = Initialized {
        config_dir: dir.to_owned(),
        tokens_path,
        providers_path: hostpath::join(dir, PROVIDERS_FILE),
        providers_created: !probe.providers_exist,
        clients,
    };
    Ok(Setup { create_directory, entries, initialized })
}

proof fn lemma_claims(claims: Seq<Claim>, expected: Set<Claim>)
    requires
        forall|claim: Claim| #[trigger] expected.contains(claim) <==> exists|i: int|
            0 <= i < claims.len() && claims[i] == claim,
    ensures
        claims.to_set() == expected,
{
    assert(claims.to_set() =~= expected);
}

/// The setup of the config directory `dir` with fresh secrets.
///
/// Refuses to overwrite an existing token file unless `force` is set. Any
/// existing client files are rewritten alongside it. The provider config is a
/// template the operator edits, so an existing one is never overwritten, even
/// when `force` is set.
pub fn init(dir: &str, force: bool, probe: SetupProbe) -> (r: Result<Setup, InitError>)
    ensures
        exists|secrets: Seq<Seq<char>>|
            {
                &&& secrets.len() == 3
                &&& forall|i: int| 0 <= i < 3 ==> is_secret(#[trigger] secrets[i])
                &&& #[trigger] setup_answer(dir@, force, probe, secrets, r)
            },
{
    let secrets: [String; 3] = [generate_secret(), generate_secret(), generate_secret()];
    let r = plan(dir, force, probe, &secrets);
    proof {
        let views = text::views(secrets@);
        assert(setup_answer(dir@, force, probe, views, r));
        assert forall|i: int| 0 <= i < 3 implies is_secret(#[trigger] views[i]) by {
            assert(views[i] == secrets@[i]@);
        }
    }
    r
}

} // verus!
