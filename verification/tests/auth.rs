use agentd::auth::{
    constant_time_eq, AuthError, Claim, Principal, Token, TokenFileEntry, TokenStore,
};
use axum::http::header::AUTHORIZATION;
use axum::http::HeaderMap;

/// Builds headers carrying `secret` as a bearer token.
fn headers(secret: &str) -> HeaderMap {
    let mut headers = HeaderMap::new();
    headers.insert(AUTHORIZATION, format!("Bearer {secret}").parse().expect("header"));
    headers
}

fn store() -> TokenStore {
    TokenStore::new(vec![
        Token {
            secret: String::from("read-secret"),
            principal: Principal::new("urn:test:reader", &[Claim::Read]),
        },
        Token {
            secret: String::from("authority-secret"),
            principal: Principal::new(
                "urn:test:approver",
                &[Claim::Read, Claim::Publish, Claim::Authority],
            ),
        },
    ])
}

#[test]
fn authorizes_a_known_token() {
    let principal = store().authorize(&headers("authority-secret")).expect("known token");

    assert!(principal.has(Claim::Authority));
    assert_eq!(principal.source(), "urn:test:approver");
}

#[test]
fn bearer_scheme_is_case_insensitive() {
    let mut headers = HeaderMap::new();
    headers.insert(AUTHORIZATION, "bearer read-secret".parse().expect("header"));

    assert!(store().authorize(&headers).is_ok());
}

#[test]
fn token_debug_redacts_the_secret() {
    let token = Token {
        secret: String::from("super-secret"),
        principal: Principal::new("urn:test", &[Claim::Read]),
    };

    assert!(!token.debug_text().contains("super-secret"));
    assert!(token.debug_text().contains("<redacted>"));
    assert!(token.debug_text().contains("urn:test"));
}

#[test]
fn rejects_missing_and_unknown_tokens() {
    assert!(matches!(store().authorize(&HeaderMap::new()), Err(AuthError::MissingToken)));
    assert!(matches!(store().authorize(&headers("wrong")), Err(AuthError::UnknownToken)));
    assert!(matches!(store().authorize(&headers("")), Err(AuthError::MissingToken)));
}

#[test]
fn read_only_tokens_hold_no_publish_claim() {
    let principal = store().authorize(&headers("read-secret")).expect("known token");

    assert!(principal.has(Claim::Read));
    assert!(!principal.has(Claim::Publish));
    assert!(!principal.has(Claim::Authority));
}

#[test]
fn a_token_without_read_or_publish_is_refused() {
    let store = TokenStore::new(vec![Token {
        secret: String::from("nothing"),
        principal: Principal::new("urn:test:none", &[]),
    }]);

    assert!(matches!(store.authorize(&headers("nothing")), Err(AuthError::NoAccess)));
}

#[test]
fn loads_a_token_file_and_enforces_privacy() {
    let entries = || {
        Ok(vec![TokenFileEntry {
            secret: String::from("s"),
            claims: vec![Claim::Read, Claim::Publish],
            source: String::from("urn:test"),
        }])
    };

    let store = TokenStore::load("/cfg/tokens.json", 0o600, entries())
        .expect("private file should load");
    assert!(store.authorize(&headers("s")).is_ok());

    match TokenStore::load("/cfg/tokens.json", 0o644, entries()) {
        Err(AuthError::Permissions(path, mode)) => {
            assert_eq!(path, "/cfg/tokens.json");
            assert_eq!(mode, 0o644);
        }
        _ => panic!("a shared file must be refused"),
    }
}

#[test]
fn a_broken_token_file_is_reported_as_it_is() {
    let broken = TokenStore::load(
        "/cfg/tokens.json",
        0o600,
        Err(AuthError::Parse(String::from("expected value"))),
    );

    match broken {
        Err(error) => {
            assert_eq!(error.to_string(), "failed to parse the token file: expected value");
        }
        Ok(_) => panic!("a broken file must not load"),
    }
}

#[test]
fn the_last_token_with_a_secret_counts() {
    let store = TokenStore::new(vec![
        Token {
            secret: String::from("s"),
            principal: Principal::new("urn:first", &[Claim::Read]),
        },
        Token {
            secret: String::from("s"),
            principal: Principal::new("urn:second", &[Claim::Publish]),
        },
    ]);

    let principal = store.authorize_value(Some("Bearer s")).expect("known");
    assert_eq!(principal.source(), "urn:second");
    assert!(!principal.has(Claim::Read));
}

#[test]
fn a_header_needs_a_scheme_and_a_secret() {
    for value in ["read-secret", "Basic read-secret", "Bearer", "Bearer "] {
        assert!(matches!(
            store().authorize_value(Some(value)),
            Err(AuthError::MissingToken)
        ));
    }
}

#[test]
fn auth_errors_explain_themselves() {
    assert_eq!(
        AuthError::Permissions(String::from("/t"), 0o644).to_string(),
        "the token file /t is accessible by other users (mode 644)"
    );
    assert_eq!(AuthError::MissingToken.to_string(), "the request is missing a bearer token");
    assert_eq!(AuthError::UnknownToken.to_string(), "the bearer token is not recognized");
    assert_eq!(
        AuthError::NoAccess.to_string(),
        "the bearer token grants no access to the event API"
    );
    assert_eq!(
        AuthError::Io(String::from("gone")).to_string(),
        "failed to read the token file: gone"
    );
}

#[test]
fn constant_time_comparison_compares() {
    assert!(constant_time_eq(b"", b""));
    assert!(constant_time_eq(b"secret", b"secret"));
    assert!(!constant_time_eq(b"secret", b"secreT"));
    assert!(!constant_time_eq(b"secret", b"secre"));
}
