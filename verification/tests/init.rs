use agentd::auth::{Claim, TokenStore};
use agentd::init::{
    generate_secret, init, plan, InitError, Setup, SetupProbe, PROVIDERS_FILE, PROVIDERS_TEMPLATE,
    TOKEN_FILE,
};
use agentd::server::DirectoryProbe;

fn empty() -> SetupProbe {
    SetupProbe {
        directory: DirectoryProbe::Present(Some(0o700)),
        tokens_exist: false,
        providers_exist: false,
    }
}

fn setup(probe: SetupProbe, force: bool) -> Result<Setup, InitError> {
    init("/cfg", force, probe)
}

#[test]
fn init_writes_a_private_token_file_and_client_files() {
    let result = setup(empty(), false).expect("init should succeed");

    assert!(!result.create_directory);
    assert_eq!(result.initialized.config_dir, "/cfg");
    assert_eq!(result.initialized.tokens_path, format!("/cfg/{TOKEN_FILE}"));
    assert_eq!(result.initialized.providers_path, format!("/cfg/{PROVIDERS_FILE}"));
    assert!(result.initialized.providers_created);
    assert_eq!(result.initialized.clients.len(), 3);
    let paths: Vec<&str> =
        result.initialized.clients.iter().map(|client| client.path.as_str()).collect();
    assert_eq!(paths, ["/cfg/user.token", "/cfg/agent.token", "/cfg/admin.token"]);

    // The file the store loads grants each client its claims.
    let secrets: Vec<String> =
        result.initialized.clients.iter().map(|client| client.secret.clone()).collect();
    let store = TokenStore::load("/cfg/tokens.json", 0o600, Ok(result.entries))
        .expect("token file should load");
    let principal = |secret: &str| {
        store
            .authorize_value(Some(&format!("Bearer {secret}")))
            .expect("the token should authorize")
    };
    let agent = principal(&secrets[1]);
    assert!(agent.has(Claim::Infer));
    assert!(!agent.has(Claim::Authority));
    assert_eq!(agent.source(), "urn:mokmokd:agent");
    let admin = principal(&secrets[2]);
    assert!(admin.has(Claim::Authority));
    assert!(!admin.has(Claim::Infer));
    let user = principal(&secrets[0]);
    assert!(user.has(Claim::Read) && user.has(Claim::Publish));
    assert!(!user.has(Claim::Infer) && !user.has(Claim::Authority));
}

#[test]
fn the_providers_template_is_valid_and_never_overwritten() {
    let template: serde_json::Value =
        serde_json::from_str(PROVIDERS_TEMPLATE).expect("template should parse");
    assert_eq!(template["providers"]["local"]["kind"], "open_ai_compatible");
    assert!(template["default_model"].is_null());

    // An operator's edit survives a forced re-init.
    let second = setup(
        SetupProbe { tokens_exist: true, providers_exist: true, ..empty() },
        true,
    )
    .expect("re-init should succeed");
    assert!(!second.initialized.providers_created);
}

#[test]
fn init_refuses_to_overwrite_without_force() {
    let existing = SetupProbe { tokens_exist: true, ..empty() };

    assert!(matches!(
        setup(existing, false),
        Err(InitError::Exists(path)) if path == "/cfg/tokens.json"
    ));
    assert!(setup(existing, true).is_ok());
}

#[test]
fn init_refuses_a_shared_directory() {
    for mode in [0o777, 0o702, 0o720] {
        let shared =
            SetupProbe { directory: DirectoryProbe::Present(Some(mode)), ..empty() };
        assert!(matches!(
            setup(shared, true),
            Err(InitError::InsecureDirectory(path)) if path == "/cfg"
        ));
    }
    let readable = SetupProbe { directory: DirectoryProbe::Present(Some(0o755)), ..empty() };
    assert!(setup(readable, false).is_ok());
}

#[test]
fn a_missing_directory_is_created() {
    let missing = SetupProbe { directory: DirectoryProbe::Missing, ..empty() };
    assert!(setup(missing, false).expect("init should succeed").create_directory);
}

#[test]
fn secrets_are_distinct() {
    let result = setup(empty(), false).expect("init should succeed");

    let mut secrets: Vec<&str> =
        result.initialized.clients.iter().map(|client| client.secret.as_str()).collect();
    secrets.sort_unstable();
    secrets.dedup();
    assert_eq!(secrets.len(), result.initialized.clients.len());
    assert_eq!(result.initialized.clients[0].secret.len(), 64);
    assert!(generate_secret().chars().all(|c| c.is_ascii_hexdigit() && !c.is_uppercase()));
}

#[test]
fn planned_secrets_are_the_ones_handed_in() {
    let secrets = ["one", "two", "three"].map(String::from);
    let setup = plan("/cfg", false, empty(), &secrets).expect("a plan");
    assert_eq!(setup.entries[1].secret, "two");
    assert_eq!(setup.entries[1].claims, vec![Claim::Read, Claim::Publish, Claim::Infer]);
    assert_eq!(setup.initialized.clients[2].name, "admin");
    assert_eq!(setup.initialized.clients[2].secret, "three");
}

#[test]
fn setup_errors_explain_themselves() {
    assert_eq!(
        InitError::Exists(String::from("/t")).to_string(),
        "/t already exists; pass --force to overwrite it"
    );
    assert_eq!(
        InitError::InsecureDirectory(String::from("/c")).to_string(),
        "the config directory /c is writable by other users"
    );
    assert_eq!(
        InitError::Json(String::from("j")).to_string(),
        "failed to encode the token file: j"
    );
    assert_eq!(InitError::Io(String::from("i")).to_string(), "i");
}
