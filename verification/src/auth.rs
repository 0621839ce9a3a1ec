//! Client authentication and authorization for the event API.
//!
//! Every connection presents a bearer token whose [`Claim`]s decide what it may
//! do: subscribe to the log ([`Claim::Read`]), append events
//! ([`Claim::Publish`]), publish the reserved daemon-authority types
//! ([`Claim::Authority`]), or request model inference ([`Claim::Infer`]).
//!
//! Tokens are a *capability*: the token file is private to the daemon user, and
//! a secret never appears in debug output.

use crate::text;
use axum::http::{HeaderMap, HeaderValue};
use vstd::prelude::*;

verus! {

broadcast use vstd::string::group_string_axioms;

/// `http::HeaderMap`, the headers of a request.
#[verifier::external_type_specification]
#[verifier::external_body]
#[verifier::reject_recursive_types(T)]
pub struct ExHeaderMap<T>(axum::http::HeaderMap<T>);

/// `http::HeaderValue`, the value of a header.
#[verifier::external_type_specification]
#[verifier::external_body]
pub struct ExHeaderValue(axum::http::HeaderValue);

/// The headers whose first value is visible ASCII text, by lower-case name,
/// with that value.
pub uninterp spec fn header_texts(headers: HeaderMap<HeaderValue>) -> Map<Seq<char>, Seq<char>>;

/// `http::HeaderMap::get` for `Authorization`, and `HeaderValue::to_str`: the
/// first value of the header, when it is visible ASCII text.
#[verifier::external_body]
fn authorization(headers: &HeaderMap<HeaderValue>) -> (r: Option<&str>)
    ensures
        match r {
            Some(value) => header_texts(*headers).contains_key("authorization"@) && header_texts(
                *headers,
            )["authorization"@] == value@,
            None => !header_texts(*headers).contains_key("authorization"@),
        },
{
    headers.get(axum::http::header::AUTHORIZATION)?.to_str().ok()
}

/// A capability a token grants.
#[derive(Debug, Clone, Copy, PartialEq, Eq, PartialOrd, Ord, Structural)]
pub enum Claim {
    /// Subscribe to the event stream (replay and live).
    Read,
    /// Append non-reserved events to the log.
    Publish,
    /// Publish the reserved daemon-authority types (`error.*`, `sandbox.*`,
    /// `session.*`); implies the intent to publish.
    Authority,
    /// Request model inference. A token holding only this claim may not read or
    /// publish events.
    Infer,
}

/// An authenticated connection: what it may do and the `source` its events are
/// stamped with.
#[derive(Debug, PartialEq, Eq)]
pub struct Principal {
    read: bool,
    publish: bool,
    authority: bool,
    infer: bool,
    source: String,
}

/// What a principal may do and the source of its events, as plain values.
#[verifier::ext_equal]
pub struct PrincipalValue {
    pub claims: Set<Claim>,
    pub source: Seq<char>,
}

impl View for Principal {
    type V = PrincipalValue;

    closed spec fn view(&self) -> PrincipalValue {
        PrincipalValue {
            claims: Set::new(
                |claim: Claim|
                    match claim {
                        Claim::Read => self.read,
                        Claim::Publish => self.publish,
                        Claim::Authority => self.authority,
                        Claim::Infer => self.infer,
                    },
            ),
            source: self.source@,
        }
    }
}

impl Principal {
    /// Creates a principal with `claims` whose events carry `source`.
    #[must_use]
    pub fn new(source: &str, claims: &[Claim]) -> (r: Principal)
        ensures
            r@.source == source@,
            forall|claim: Claim| #[trigger] r@.claims.contains(claim) <==> claims@.contains(claim),
    {
        let mut principal = Principal {
            read: false,
            publish: false,
            authority: false,
            infer: false,
            source: source.to_owned(),
        };
        let mut i: usize = 0;
        while i < claims.len()
            invariant
                i <= claims@.len(),
                principal@.source == source@,
                forall|claim: Claim| #[trigger]
                    principal@.claims.contains(claim) <==> claims@.take(i as int).contains(claim),
            decreases claims@.len() - i,
        {
            let ghost before = principal@.claims;
            let ghost old_claims = claims@.take(i as int);
            let added = claims[i];
            match added {
                Claim::Read => {
                    principal.read = true;
                },
                Claim::Publish => {
                    principal.publish = true;
                },
                Claim::Authority => {
                    principal.authority = true;
                },
                Claim::Infer => {
                    principal.infer = true;
                },
            }
            i = i + 1;
            proof {
                let now = claims@.take(i as int);
                assert(now =~= old_claims.push(added));
                assert forall|claim: Claim| #[trigger]
                    principal@.claims.contains(claim) <==> now.contains(claim) by {
                    assert(principal@.claims.contains(claim) <==> before.contains(claim) || claim
                        == added);
                    if old_claims.contains(claim) {
                        let k = choose|k: int|
                            0 <= k < old_claims.len() && old_claims[k] == claim;
                        assert(now[k] == claim);
                    }
                    if claim == added {
                        assert(now[i - 1] == claim);
                    }
                    if now.contains(claim) {
                        let k = choose|k: int| 0 <= k < now.len() && now[k] == claim;
                        if k < old_claims.len() {
                            assert(old_claims[k] == claim);
                        }
                    }
                }
            }
        }
        proof {
            assert(claims@.take(i as int) =~= claims@);
        }
        principal
    }

    /// Whether the principal holds `claim`.
    #[must_use]
    pub fn has(&self, claim: Claim) -> (r: bool)
        ensures
            r == self@.claims.contains(claim),
    {
        match claim {
            Claim::Read => self.read,
            Claim::Publish => self.publish,
            Claim::Authority => self.authority,
            Claim::Infer => self.infer,
        }
    }

    /// The `source` the daemon stamps on this principal's events.
    #[must_use]
    pub fn source(&self) -> (r: &str)
        ensures
            r@ == self@.source,
    {
        self.source.as_str()
    }
}

impl Clone for Principal {
    fn clone(&self) -> (r: Principal)
        ensures
            r@ == self@,
    {
        let copy = Principal {
            read: self.read,
            publish: self.publish,
            authority: self.authority,
            infer: self.infer,
            source: self.source.clone(),
        };
        proof {
            assert(copy@.claims =~= self@.claims);
        }
        copy
    }
}

/// A token together with what it grants.
pub struct Token {
    /// The bearer secret.
    pub secret: String,
    /// The capability the secret confers.
    pub principal: Principal,
}

/// The debug form of a principal.
pub open spec fn principal_debug(principal: PrincipalValue) -> Seq<char> {
    "Principal { claims: {"@ + text::join(claim_names(principal.claims), ',') + "}, source: "@
        + text::debug_quoted(principal.source) + " }"@
}

/// The names of the claims held, in order, each behind a space but the first.
pub open spec fn claim_names(claims: Set<Claim>) -> Seq<Seq<char>> {
    let first = Seq::<Seq<char>>::empty();
    let read = if claims.contains(Claim::Read) {
        first.push("Read"@)
    } else {
        first
    };
    let publish = add_name(read, claims.contains(Claim::Publish), "Publish"@);
    let authority = add_name(publish, claims.contains(Claim::Authority), "Authority"@);
    add_name(authority, claims.contains(Claim::Infer), "Infer"@)
}

/// A list of names with one more, if it is held.
pub open spec fn add_name(names: Seq<Seq<char>>, held: bool, name: Seq<char>) -> Seq<Seq<char>> {
    if !held {
        names
    } else if names.len() == 0 {
        names.push(name)
    } else {
        names.push(seq![' '] + name)
    }
}

/// The debug form of a token with this principal: the secret is redacted.
pub open spec fn token_debug(principal: PrincipalValue) -> Seq<char> {
    "Token { secret: \"<redacted>\", principal: "@ + principal_debug(principal) + " }"@
}

fn push_name(names: &mut Vec<String>, held: bool, name: &str)
    ensures
        text::views(final(names)@) == add_name(text::views(old(names)@), held, name@),
{
    let ghost before = names@;
    if held {
        if names.len() == 0 {
            names.push(name.to_owned());
            proof {
                assert(text::views(names@) =~= text::views(before).push(name@));
            }
        } else {
            let mut spaced = String::new();
            spaced.push(' ');
            spaced.append(name);
            proof {
                assert(spaced@ =~= seq![' '] + name@);
            }
            names.push(spaced);
            proof {
                assert(text::views(names@) =~= text::views(before).push(seq![' '] + name@));
            }
        }
    }
}

impl Token {
    /// The debug form of the token. The secret is redacted, so a token can
    /// never leak it through logging: the text depends on the principal alone.
    pub fn debug_text(&self) -> (r: String)
        ensures
            r@ == token_debug(self.principal@),
    {
        let mut names: Vec<String> = Vec::new();
        proof {
            assert(text::views(names@) =~= Seq::<Seq<char>>::empty());
        }
        push_name(&mut names, self.principal.has(Claim::Read), "Read");
        push_name(&mut names, self.principal.has(Claim::Publish), "Publish");
        push_name(&mut names, self.principal.has(Claim::Authority), "Authority");
        push_name(&mut names, self.principal.has(Claim::Infer), "Infer");
        let mut inner = "Principal { claims: {".to_owned();
        inner.append(text::join_text(names.as_slice(), ',').as_str());
        inner.append("}, source: ");
        inner.append(text::debug_text(self.principal.source()).as_str());
        inner.append(" }");
        let mut text = "Token { secret: \"<redacted>\", principal: ".to_owned();
        text.append(inner.as_str());
        text.append(" }");
        text
    }
}

/// Errors returned while loading or applying a [`TokenStore`].
#[derive(Debug)]
pub enum AuthError {
    /// The token file could not be read.
    Io(String),
    /// The token file was not valid JSON, or a claim name was unknown.
    Parse(String),
    /// The token file is readable or writable by other users; the daemon fails
    /// closed.
    Permissions(String, u32),
    /// The connection presented no bearer token.
    MissingToken,
    /// The connection presented a token that is not configured.
    UnknownToken,
    /// The connection holds no usable claim.
    NoAccess,
}

/// The digits of a number in base eight.
pub open spec fn octal(n: nat) -> Seq<char>
    decreases n,
{
    if n < 8 {
        seq![text::digit_char(n)]
    } else {
        octal(n / 8).push(text::digit_char(n % 8))
    }
}

fn octal_text(n: u32) -> (r: String)
    ensures
        r@ == octal(n as nat),
    decreases n,
{
    let digit = match n % 8 {
        0 => '0',
        1 => '1',
        2 => '2',
        3 => '3',
        4 => '4',
        5 => '5',
        6 => '6',
        _ => '7',
    };
    if n < 8 {
        let mut text = String::new();
        text.push(digit);
        text
    } else {
        let mut text = octal_text(n / 8);
        text.push(digit);
        text
    }
}

/// The error in words.
pub open spec fn auth_error_text(error: AuthError) -> Seq<char> {
    match error {
        AuthError::Io(error) => "failed to read the token file: "@ + error@,
        AuthError::Parse(error) => "failed to parse the token file: "@ + error@,
        AuthError::Permissions(path, mode) => "the token file "@ + path@
            + " is accessible by other users (mode "@ + octal(mode as nat) + ")"@,
        AuthError::MissingToken => "the request is missing a bearer token"@,
        AuthError::UnknownToken => "the bearer token is not recognized"@,
        AuthError::NoAccess => "the bearer token grants no access to the event API"@,
    }
}

impl AuthError {
    /// The error in words.
    pub fn to_string(&self) -> (r: String)
        ensures
            r@ == match *self {
                AuthError::Io(error) => "failed to read the token file: "@ + error@,
                AuthError::Parse(error) => "failed to parse the token file: "@ + error@,
                AuthError::Permissions(path, mode) => "the token file "@ + path@
                    + " is accessible by other users (mode "@ + octal(mode as nat) + ")"@,
                AuthError::MissingToken => "the request is missing a bearer token"@,
                AuthError::UnknownToken => "the bearer token is not recognized"@,
                AuthError::NoAccess => "the bearer token grants no access to the event API"@,
            },
            r@ == auth_error_text(*self),
    {
        match self {
            AuthError::Io(error) => {
                text::concat("failed to read the token file: ", error.as_str())
            },
            AuthError::Parse(error) => {
                text::concat("failed to parse the token file: ", error.as_str())
            },
            AuthError::Permissions(path, mode) => {
                let mut message = text::concat("the token file ", path.as_str());
                message.append(" is accessible by other users (mode ");
                message.append(octal_text(*mode).as_str());
                message.append(")");
                message
            },
            AuthError::MissingToken => "the request is missing a bearer token".to_owned(),
            AuthError::UnknownToken => "the bearer token is not recognized".to_owned(),
            AuthError::NoAccess => {
                "the bearer token grants no access to the event API".to_owned()
            },
        }
    }
}

/// One entry of the token file.
pub struct TokenFileEntry {
    /// The bearer secret.
    pub secret: String,
    /// The claims the secret confers.
    pub claims: Vec<Claim>,
    /// The source its events carry.
    pub source: String,
}

/// The configured tokens.
pub struct TokenStore {
    tokens: Vec<Token>,
}

/// A token, as plain values.
pub open spec fn token_view(token: Token) -> (Seq<char>, PrincipalValue) {
    (token.secret@, token.principal@)
}

/// The tokens, as plain values.
pub open spec fn token_views(tokens: Seq<Token>) -> Seq<(Seq<char>, PrincipalValue)> {
    Seq::new(tokens.len(), |i: int| token_view(tokens[i]))
}

/// The tokens of the entries of a token file.
pub open spec fn entry_tokens(entries: Seq<TokenFileEntry>) -> Seq<(Seq<char>, PrincipalValue)> {
    Seq::new(
        entries.len(),
        |i: int|
            (
                entries[i].secret@,
                PrincipalValue {
                    claims: entries[i].claims@.to_set(),
                    source: entries[i].source@,
                },
            ),
    )
}

impl View for TokenStore {
    type V = Seq<(Seq<char>, PrincipalValue)>;

    closed spec fn view(&self) -> Seq<(Seq<char>, PrincipalValue)> {
        token_views(self.tokens@)
    }
}

/// The secret of `Bearer <secret>`: the scheme in any case, one space, and a
/// secret that is not empty.
pub open spec fn bearer_secret(value: Seq<char>) -> Option<Seq<char>> {
    let space = text::first_index(value, ' ');
    if space < value.len() && text::lowered(value.take(space)) == "bearer"@ && value.skip(
        space + 1,
    ).len() > 0 {
        Some(value.skip(space + 1))
    } else {
        None
    }
}

/// What the secret confers: that of the last token with this secret.
pub open spec fn principal_of(
    tokens: Seq<(Seq<char>, PrincipalValue)>,
    secret: Seq<char>,
) -> Option<PrincipalValue>
    decreases tokens.len(),
{
    if tokens.len() == 0 {
        None
    } else if tokens.last().0 == secret {
        Some(tokens.last().1)
    } else {
        principal_of(tokens.drop_last(), secret)
    }
}

/// Whether a principal may use the API at all: it may read, publish, or ask
/// for inference.
pub open spec fn has_access(principal: PrincipalValue) -> bool {
    principal.claims.contains(Claim::Read) || principal.claims.contains(Claim::Publish)
        || principal.claims.contains(Claim::Infer)
}

/// Whether `result` is the answer to a connection with this `Authorization`
/// value: the principal of its secret, or the first reason there is none.
pub open spec fn authorized(
    tokens: Seq<(Seq<char>, PrincipalValue)>,
    value: Option<Seq<char>>,
    result: Result<Principal, AuthError>,
) -> bool {
    let secret = match value {
        Some(value) => bearer_secret(value),
        None => None,
    };
    match secret {
        None => result is Err && result->Err_0 is MissingToken,
        Some(secret) => match principal_of(tokens, secret) {
            None => result is Err && result->Err_0 is UnknownToken,
            Some(principal) => if has_access(principal) {
                result is Ok && result->Ok_0@ == principal
            } else {
                result is Err && result->Err_0 is NoAccess
            },
        },
    }
}

/// A token's own secret always finds a principal; a secret that no token has
/// finds none.
pub proof fn only_configured_secrets_are_known(
    tokens: Seq<(Seq<char>, PrincipalValue)>,
    secret: Seq<char>,
)
    ensures
        principal_of(tokens, secret) is Some <==> exists|i: int|
            0 <= i < tokens.len() && (#[trigger] tokens[i]).0 == secret,
    decreases tokens.len(),
{
    if tokens.len() > 0 {
        let init = tokens.drop_last();
        only_configured_secrets_are_known(init, secret);
        if principal_of(tokens, secret) is Some {
            if tokens.last().0 == secret {
                assert(tokens[tokens.len() - 1].0 == secret);
            } else {
                let i = choose|i: int| 0 <= i < init.len() && (#[trigger] init[i]).0 == secret;
                assert(tokens[i].0 == secret);
            }
        }
        if exists|i: int| 0 <= i < tokens.len() && (#[trigger] tokens[i]).0 == secret {
            let i = choose|i: int| 0 <= i < tokens.len() && (#[trigger] tokens[i]).0 == secret;
            if i < init.len() {
                assert(init[i].0 == secret);
            }
        }
    }
}

/// A comparison whose duration depends only on the inputs' lengths.
pub fn constant_time_eq(a: &[u8], b: &[u8]) -> (r: bool)
    ensures
        r == (a@ == b@),
{
    if a.len() != b.len() {
        return false;
    }
    let mut difference: u8 = 0;
    let mut i: usize = 0;
    while i < a.len()
        invariant
            i <= a@.len(),
            a@.len() == b@.len(),
            difference == 0 <==> (forall|k: int| 0 <= k < i ==> a@[k] == b@[k]),
        decreases a@.len() - i,
    {
        let before: u8 = difference;
        let x: u8 = a[i];
        let y: u8 = b[i];
        difference = before | (x ^ y);
        proof {
            assert((before | (x ^ y)) == 0 <==> (before == 0 && x == y)) by (bit_vector);
            if difference == 0 {
                assert forall|k: int| 0 <= k < i + 1 implies a@[k] == b@[k] by {}
            }
        }
        i = i + 1;
    }
    proof {
        if difference == 0 {
            assert(a@ =~= b@);
        } else if a@ == b@ {
            assert(forall|k: int| 0 <= k < i ==> a@[k] == b@[k]);
        }
    }
    difference == 0
}

/// Whether two texts are the same, in a time that depends on their lengths
/// alone.
fn same_secret(a: &str, b: &str) -> (r: bool)
    ensures
        r == (a@ == b@),
{
    proof {
        vstd::utf8::encode_utf8_decode_utf8(a@);
        vstd::utf8::encode_utf8_decode_utf8(b@);
    }
    constant_time_eq(a.as_bytes(), b.as_bytes())
}

/// Extracts the bearer secret from `Bearer <token>`.
fn bearer(value: &str) -> (r: Option<String>)
    ensures
        text::opt_view(r) == bearer_secret(value@),
{
    let chars = text::to_chars(value);
    let space: usize = text::find_char(&chars, ' ');
    if space >= chars.len() {
        return None;
    }
    let scheme = text::from_chars(&chars, 0, space);
    let secret = text::from_chars(&chars, space + 1, chars.len());
    proof {
        assert(scheme@ =~= value@.take(space as int));
        assert(secret@ =~= value@.skip(space + 1));
    }
    let known = text::to_lower(scheme.as_str());
    if text::same(known.as_str(), "bearer") && !secret.as_str().is_empty() {
        Some(secret)
    } else {
        None
    }
}

/// Whether a result is the answer to loading a token file: one that others may use is
/// refused, and otherwise its entries are the tokens.
pub open spec fn loaded(
    path: Seq<char>,
    mode: u32,
    entries: Result<Vec<TokenFileEntry>, AuthError>,
    r: Result<TokenStore, AuthError>,
) -> bool {
    if mode & 0o077 != 0 {
        r is Err && r->Err_0 is Permissions && r->Err_0->Permissions_0@ == path
            && r->Err_0->Permissions_1 == mode & 0o777
    } else {
        match entries {
            Ok(entries) => r is Ok && r->Ok_0@ == entry_tokens(entries@),
            Err(error) => r == Err::<TokenStore, AuthError>(error),
        }
    }
}

impl TokenStore {
    /// Creates a store from an explicit list of tokens.
    #[must_use]
    pub fn new(tokens: Vec<Token>) -> (r: TokenStore)
        ensures
            r@ == token_views(tokens@),
    {
        TokenStore { tokens }
    }

    /// Loads the entries of the token file at `path`, whose permission bits are
    /// `mode`. The file must not be accessible by group or other users, or
    /// loading fails closed.
    pub fn load(
        path: &str,
        mode: u32,
        entries: Result<Vec<TokenFileEntry>, AuthError>,
    ) -> (r: Result<TokenStore, AuthError>)
        ensures
            if mode & 0o077 != 0 {
                r is Err && r->Err_0 is Permissions && r->Err_0->Permissions_0@ == path@
                    && r->Err_0->Permissions_1 == mode & 0o777
            } else {
                match entries {
                    Ok(entries) => r is Ok && r->Ok_0@ == entry_tokens(entries@),
                    Err(error) => r == Err::<TokenStore, AuthError>(error),
                }
            },
            loaded(path@, mode, entries, r),
    {
        let bits: u32 = mode & 0o777;
        proof {
            assert((mode & 0o777) & 0o077 == mode & 0o077) by (bit_vector);
        }
        if bits & 0o077 != 0 {
            return Err(AuthError::Permissions(path.to_owned(), bits));
        }
        match entries {
            Err(error) => Err(error),
            Ok(entries) => {
                let mut tokens: Vec<Token> = Vec::new();
                let mut i: usize = 0;
                while i < entries.len()
                    invariant
                        i <= entries@.len(),
                        token_views(tokens@) == entry_tokens(entries@).take(i as int),
                    decreases entries@.len() - i,
                {
                    let entry = &entries[i];
                    let principal = Principal::new(
                        entry.source.as_str(),
                        entry.claims.as_slice(),
                    );
                    proof {
                        assert(principal@.claims =~= entry.claims@.to_set());
                    }
                    let ghost before = tokens@;
                    tokens.push(Token { secret: entry.secret.clone(), principal });
                    proof {
                        assert(token_views(tokens@) =~= token_views(before).push(
                            entry_tokens(entries@)[i as int],
                        ));
                        assert(entry_tokens(entries@).take(i + 1) =~= entry_tokens(
                            entries@,
                        ).take(i as int).push(entry_tokens(entries@)[i as int]));
                    }
                    i = i + 1;
                }
                proof {
                    assert(entry_tokens(entries@).take(i as int) =~= entry_tokens(entries@));
                }
                Ok(TokenStore { tokens })
            },
        }
    }

    /// Authorizes a connection from its headers.
    ///
    /// Returns [`AuthError::MissingToken`] when no `Authorization: Bearer` is
    /// present, [`AuthError::UnknownToken`] when the secret is not configured,
    /// and [`AuthError::NoAccess`] when the matched token grants none of read,
    /// publish, or inference.
    pub fn authorize(&self, headers: &HeaderMap<HeaderValue>) -> (r: Result<
        Principal,
        AuthError,
    >)
        ensures
            authorized(
                self@,
                if header_texts(*headers).contains_key("authorization"@) {
                    Some(header_texts(*headers)["authorization"@])
                } else {
                    None
                },
                r,
            ),
    {
        self.authorize_value(authorization(headers))
    }

    /// Authorizes a connection from the value of its `Authorization` header, if
    /// it has one.
    pub fn authorize_value(&self, value: Option<&str>) -> (r: Result<Principal, AuthError>)
        ensures
            authorized(
                self@,
                match value {
                    Some(value) => Some(value@),
                    None => None,
                },
                r,
            ),
    {
        let presented = match value {
            Some(value) => bearer(value),
            None => None,
        };
        let secret = match presented {
            Some(secret) => secret,
            None => return Err(AuthError::MissingToken),
        };
        // Every configured token is compared without short-circuiting, so the
        // position of a match is not observable through timing.
        let mut matched: Option<usize> = None;
        let mut i: usize = 0;
        while i < self.tokens.len()
            invariant
                i <= self.tokens@.len(),
                match matched {
                    Some(k) => k < i && principal_of(self@.take(i as int), secret@) == Some(
                        self.tokens@[k as int].principal@,
                    ),
                    None => principal_of(self@.take(i as int), secret@) is None,
                },
            decreases self.tokens@.len() - i,
        {
            proof {
                assert(self@.take(i + 1).drop_last() =~= self@.take(i as int));
                assert(self@.take(i + 1).last() == token_view(self.tokens@[i as int]));
            }
            if same_secret(self.tokens[i].secret.as_str(), secret.as_str()) {
                matched = Some(i);
            }
            i = i + 1;
        }
        proof {
            assert(self@.take(i as int) =~= self@);
        }
        let principal = match matched {
            Some(k) => &self.tokens[k].principal,
            None => return Err(AuthError::UnknownToken),
        };
        if !principal.has(Claim::Read) && !principal.has(Claim::Publish) && !principal.has(
            Claim::Infer,
        ) {
            return Err(AuthError::NoAccess);
        }
        Ok(principal.clone())
    }
}

} // verus!
