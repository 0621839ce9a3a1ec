//! What the token store promises.

use crate::auth::{
    self, AuthError, Claim, Principal, PrincipalValue, Token, TokenFileEntry, TokenStore,
};
use crate::text;
use vstd::prelude::*;

verus! {

broadcast use vstd::string::group_string_axioms;

/// The secret is what stands behind the six letters of the scheme, in any case,
/// and one space; there is none in any other value.
pub proof fn the_secret_follows_the_scheme(value: Seq<char>, secret: Seq<char>)
    ensures
        auth::bearer_secret(value) == Some(secret) <==> secret.len() > 0 && value.len() == 7
            + secret.len() && text::lowered(value.take(6)) == seq!['b', 'e', 'a', 'r', 'e', 'r']
            && value[6] == ' ' && value.skip(7) == secret,
{
    reveal_strlit("bearer");
    let bearer = seq!['b', 'e', 'a', 'r', 'e', 'r'];
    assert("bearer"@ =~= bearer);
    text::lemma_first_index(value, ' ');
    let space = text::first_index(value, ' ');
    if auth::bearer_secret(value) is Some {
        assert(text::lowered(value.take(space)).len() == space);
        assert(space == 6);
    }
    if value.len() > 6 && text::lowered(value.take(6)) == bearer && value[6] == ' ' {
        assert forall|i: int| 0 <= i < 6 implies #[trigger] value[i] != ' ' by {
            assert(text::lowered(value.take(6))[i] == text::lower(value[i]));
            assert(bearer[i] != ' ');
        }
        text::lemma_first_index_unique(value, ' ', 6);
    }
}

/// The last token with a secret says what the secret confers, whatever stands
/// before it and whichever other secrets stand behind it.
pub proof fn the_last_token_counts(
    before: Seq<(Seq<char>, PrincipalValue)>,
    after: Seq<(Seq<char>, PrincipalValue)>,
    secret: Seq<char>,
    principal: PrincipalValue,
)
    requires
        forall|i: int| 0 <= i < after.len() ==> (#[trigger] after[i]).0 != secret,
    ensures
        auth::principal_of(before.push((secret, principal)) + after, secret) == Some(principal),
    decreases after.len(),
{
    let tokens = before.push((secret, principal)) + after;
    if after.len() == 0 {
        assert(tokens =~= before.push((secret, principal)));
        assert(tokens.last() == (secret, principal));
    } else {
        assert(tokens.last() == after.last());
        assert(after.last() == after[after.len() - 1]);
        assert(tokens.drop_last() =~= before.push((secret, principal)) + after.drop_last());
        the_last_token_counts(before, after.drop_last(), secret, principal);
    }
}

/// A secret that no token has confers nothing.
pub proof fn other_secrets_confer_nothing(
    tokens: Seq<(Seq<char>, PrincipalValue)>,
    secret: Seq<char>,
)
    requires
        forall|i: int| 0 <= i < tokens.len() ==> (#[trigger] tokens[i]).0 != secret,
    ensures
        auth::principal_of(tokens, secret) is None,
    decreases tokens.len(),
{
    if tokens.len() > 0 {
        assert(tokens.last() == tokens[tokens.len() - 1]);
        other_secrets_confer_nothing(tokens.drop_last(), secret);
    }
}

/// A connection is authorized by what its secret confers, if that lets it read,
/// publish, or ask for inference; without a secret, with an unknown one, and with
/// one that confers neither it is told which.
pub proof fn a_connection_is_what_its_secret_confers(
    tokens: Seq<(Seq<char>, PrincipalValue)>,
    value: Option<Seq<char>>,
    result: Result<Principal, AuthError>,
)
    requires
        auth::authorized(tokens, value, result),
    ensures
        value is None ==> result is Err && result->Err_0 is MissingToken,
        value is Some && auth::bearer_secret(value->0) is None ==> result is Err
            && result->Err_0 is MissingToken,
        value is Some ==> forall|secret: Seq<char>|
            #![trigger auth::principal_of(tokens, secret)]
            auth::bearer_secret(value->0) == Some(secret) ==> {
                let found = auth::principal_of(tokens, secret);
                &&& found is None ==> result is Err && result->Err_0 is UnknownToken
                &&& found is Some && !found->0.claims.contains(Claim::Read)
                    && !found->0.claims.contains(Claim::Publish) && !found->0.claims.contains(
                    Claim::Infer,
                ) ==> result is Err && result->Err_0 is NoAccess
                &&& found is Some && found->0.claims.contains(Claim::Read) ==> result is Ok
                    && result->Ok_0@ == found->0
                &&& found is Some && found->0.claims.contains(Claim::Publish) ==> result is Ok
                    && result->Ok_0@ == found->0
                &&& found is Some && found->0.claims.contains(Claim::Infer) ==> result is Ok
                    && result->Ok_0@ == found->0
            },
{
}

/// Every entry of a token file is a token: its secret, its claims, its source.
pub proof fn every_entry_is_a_token(entries: Seq<TokenFileEntry>, i: int, claim: Claim)
    requires
        0 <= i < entries.len(),
    ensures
        auth::entry_tokens(entries).len() == entries.len(),
        auth::entry_tokens(entries)[i].0 == entries[i].secret@,
        auth::entry_tokens(entries)[i].1.source == entries[i].source@,
        auth::entry_tokens(entries)[i].1.claims.contains(claim) <==> exists|k: int|
            0 <= k < entries[i].claims@.len() && #[trigger] entries[i].claims@[k] == claim,
{
    let claims = entries[i].claims@;
    assert(claims.to_set().contains(claim) <==> claims.contains(claim));
}

/// A mode is shown in base eight: its last digit is what is left of it by eight,
/// and the others show the rest.
pub proof fn modes_are_shown_in_base_eight(mode: nat, digit: nat)
    requires
        digit < 8,
    ensures
        auth::octal(digit) == seq![(digit + '0' as nat) as char],
        mode > 0 ==> auth::octal(mode * 8 + digit) == auth::octal(mode) + seq![
            (digit + '0' as nat) as char,
        ],
{
    if mode > 0 {
        assert((mode * 8 + digit) / 8 == mode);
        assert((mode * 8 + digit) % 8 == digit);
        assert(auth::octal(mode).push((digit + '0' as nat) as char) =~= auth::octal(mode) + seq![
            (digit + '0' as nat) as char,
        ]);
    }
}

/// The debug form of a token shows the claims it grants, all of them, in order,
/// and its source.
pub proof fn debug_forms_show_the_claims(claims: Set<Claim>, source: Seq<char>)
    ensures
        ({
            let names = auth::claim_names(claims);
            let shown = auth::token_debug(PrincipalValue { claims, source });
            let read = claims.contains(Claim::Read);
            let publish = claims.contains(Claim::Publish);
            let authority = claims.contains(Claim::Authority);
            let infer = claims.contains(Claim::Infer);
            let space = seq![' '];
            &&& !read && !publish && !authority && !infer ==> names == Seq::<Seq<char>>::empty()
            &&& read ==> names.len() > 0 && names[0] == "Read"@
            &&& publish ==> names.contains(
                if read {
                    space + "Publish"@
                } else {
                    "Publish"@
                },
            )
            &&& authority ==> names.contains(
                if read || publish {
                    space + "Authority"@
                } else {
                    "Authority"@
                },
            )
            &&& infer ==> names.len() > 0 && names.last() == if read || publish || authority {
                space + "Infer"@
            } else {
                "Infer"@
            }
            &&& names.len() == (if read {
                1int
            } else {
                0
            }) + (if publish {
                1int
            } else {
                0
            }) + (if authority {
                1int
            } else {
                0
            }) + (if infer {
                1int
            } else {
                0
            })
            &&& shown == "Token { secret: \"<redacted>\", principal: "@ + ("Principal { claims: {"@
                + text::join(names, ',') + "}, source: "@ + text::debug_quoted(source) + " }"@)
                + " }"@
        }),
{
    let names = auth::claim_names(claims);
    let read = claims.contains(Claim::Read);
    let publish = claims.contains(Claim::Publish);
    let authority = claims.contains(Claim::Authority);
    if publish {
        assert(names[if read {
            1int
        } else {
            0
        }] == if read {
            seq![' '] + "Publish"@
        } else {
            "Publish"@
        });
    }
    if authority {
        assert(names[(if read {
            1int
        } else {
            0
        }) + (if publish {
            1int
        } else {
            0
        })] == if read || publish {
            seq![' '] + "Authority"@
        } else {
            "Authority"@
        });
    }
}

/// A token file that its group or the others may use in any way is refused, with its
/// mode; any other is taken entry by entry, or its failure is passed on.
pub proof fn a_token_file_is_private(
    path: Seq<char>,
    mode: u32,
    entries: Result<Vec<TokenFileEntry>, AuthError>,
    r: Result<TokenStore, AuthError>,
)
    requires
        auth::loaded(path, mode, entries, r),
    ensures
        mode % 64 != 0 ==> r is Err && r->Err_0 is Permissions && r->Err_0->Permissions_0@ == path
            && r->Err_0->Permissions_1 == mode % 512,
        mode % 64 == 0 && entries is Ok ==> r is Ok && r->Ok_0@ == auth::entry_tokens(
            entries->Ok_0@,
        ),
        mode % 64 == 0 && entries is Err ==> r == Err::<TokenStore, AuthError>(entries->Err_0),
{
    assert(mode & 0o077 == mode % 64) by (bit_vector);
    assert(mode & 0o777 == mode % 512) by (bit_vector);
}

/// A store has its tokens, each with its secret and what it confers, in order.
pub proof fn a_store_has_its_tokens(tokens: Seq<Token>, i: int)
    requires
        0 <= i < tokens.len(),
    ensures
        auth::token_views(tokens).len() == tokens.len(),
        auth::token_views(tokens)[i] == (tokens[i].secret@, tokens[i].principal@),
{
}

} // verus!
