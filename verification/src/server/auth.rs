//! Who a request comes from: the player named in a signed token, or a new
//! guest.

use vstd::prelude::*;

use hmac::{Hmac, Mac};
use jwt::{SignWithKey, VerifyWithKey};
use sha2::Sha256;
use std::collections::BTreeMap;

use super::ids::{is_id_char, nanoid_format};

verus! {

/// What the claims of a token hold once verified, in the order in which
/// `verify_token` hands them out, or nothing if the token does not verify.
pub uninterp spec fn verified_claims(token: Seq<char>, key: Seq<u8>) -> Option<Seq<(Seq<char>, Seq<char>)>>;

/// The token that signs the one claim `name: value`.
pub uninterp spec fn signed_token(name: Seq<char>, value: Seq<char>, key: Seq<u8>) -> Seq<char>;

/// The claims, each by the text of its name and of its value.
pub open spec fn claims_view(claims: Seq<(String, String)>) -> Seq<(Seq<char>, Seq<char>)> {
    claims.map_values(|c: (String, String)| (c.0@, c.1@))
}

/// `VerifyWithKey::<BTreeMap<String, String>>::verify_with_key` of jwt on
/// `token`, with the HMAC-SHA256 key that `Hmac::new_from_slice` makes of
/// `key`: the claims of the token when it is well formed, asks for that
/// algorithm and carries the right signature, and nothing otherwise. The
/// claims come out in the order of the map. What the outcome is, on given
/// values, is left to the name `verified_claims`.
#[verifier::external_body]
fn verify_token(token: &str, key: &[u8]) -> (r: Option<Vec<(String, String)>>)
    ensures
        match r {
            Some(claims) => verified_claims(token@, key@) == Some(claims_view(claims@)),
            None => verified_claims(token@, key@) is None,
        },
{
    let mac = Hmac::<Sha256>::new_from_slice(key).ok()?;
    let claims: BTreeMap<String, String> = VerifyWithKey::verify_with_key(token, &mac).ok()?;
    Some(claims.into_iter().collect())
}

/// `SignWithKey::<String>::sign_with_key` of jwt on the claims that map
/// `name` to `value`, with the HMAC-SHA256 key that `Hmac::new_from_slice`
/// makes of `key`: the signed token. It always succeeds: an HMAC key takes
/// a slice of any length, the header and a map of strings always write as
/// JSON, and signing with an HMAC key cannot fail. What the token is, on
/// given values, is left to the name `signed_token`. A token it signs
/// verifies with the same key and carries that one claim back: jwt writes
/// the header (with the key's algorithm) and the claims as base64 JSON and
/// appends their HMAC, and verifying parses the same three parts, checks
/// the algorithm and recomputes that HMAC.
#[verifier::external_body]
fn sign_claim(name: &str, value: &String, key: &[u8]) -> (r: String)
    ensures
        signed_token(name@, value@, key@) == r@,
        verified_claims(r@, key@) == Some(seq![(name@, value@)]),
{
    let mac = Hmac::<Sha256>::new_from_slice(key).unwrap();
    let mut claims: BTreeMap<&str, String> = BTreeMap::new();
    claims.insert(name, value.clone());
    claims.sign_with_key(&mac).unwrap()
}

/// The value of the first claim named `name`, if any.
pub open spec fn claim(claims: Seq<(Seq<char>, Seq<char>)>, name: Seq<char>) -> Option<Seq<char>>
    decreases claims.len(),
{
    if claims.len() == 0 {
        None
    } else if claims[0].0 == name {
        Some(claims[0].1)
    } else {
        claim(claims.drop_first(), name)
    }
}

/// A player: the name under which it plays, and whether it still has to
/// be given a token that carries that name.
pub struct User {
    pub username: String,
    need_refresh: bool,
}

impl User {
    /// The name under which the player plays.
    pub closed spec fn name(&self) -> Seq<char> {
        self.username@
    }

    /// The name under which the player plays.
    pub fn username(&self) -> (r: &String)
        ensures
            r@ == self.name(),
    {
        &self.username
    }

    /// The player still has to be given a token.
    pub closed spec fn needs_refresh(&self) -> bool {
        self.need_refresh
    }

    /// Whether the player still has to be given a token.
    pub fn need_refresh(&self) -> (r: bool)
        ensures
            r == self.needs_refresh(),
    {
        self.need_refresh
    }
}

/// `name` is a guest's name: `Guest_` and 21 URL-safe symbols.
pub open spec fn is_guest_name(name: Seq<char>) -> bool {
    &&& name.len() == 27
    &&& name.take(6) == "Guest_"@
    &&& forall|i: int| 6 <= i < 27 ==> is_id_char(#[trigger] name[i])
}

impl Default for User {
    /// A new guest, named `Guest_` and a random identifier, who still has to
    /// be given a token.
    fn default() -> (r: Self)
        ensures
            is_guest_name(r.name()),
            r.needs_refresh(),
    {
        let id = nanoid_format(21);
        let mut username = String::from_str("Guest_");
        username.append(id.as_str());
        proof {
            reveal_strlit("Guest_");
            assert(username@.take(6) =~= "Guest_"@);
            assert forall|i: int| 6 <= i < 27 implies is_id_char(#[trigger] username@[i]) by {
                assert(username@[i] == id@[i - 6]);
            }
        }
        User { username, need_refresh: true }
    }
}

/// What a request's token says of its sender.
pub enum ParsedCookie {
    /// The player named by a valid token, or no one if there is no token
    /// or it names no one.
    User(Option<User>),
    /// The token does not verify.
    InvalidToken,
}

/// `r` says what the verified claims `claims` say: nothing verified is an
/// invalid token; verified claims name the player of their `username`
/// claim, who needs no new token, or no one without such a claim.
pub open spec fn parsed_as(r: ParsedCookie, claims: Option<Seq<(Seq<char>, Seq<char>)>>) -> bool {
    match claims {
        None => r is InvalidToken,
        Some(c) => match claim(c, "username"@) {
            Some(name) => r matches ParsedCookie::User(Some(u)) && u.name() == name && !u.needs_refresh(),
            None => r matches ParsedCookie::User(None),
        },
    }
}

/// Reads verified claims: the player of the `username` claim, no one
/// without such a claim, or an invalid token when nothing verified.
pub fn parse_claims(claims: Option<Vec<(String, String)>>) -> (r: ParsedCookie)
    ensures
        parsed_as(r, match claims {
            Some(c) => Some(claims_view(c@)),
            None => None,
        }),
{
    match claims {
        None => ParsedCookie::InvalidToken,
        Some(c) => {
            let name = String::from_str("username");
            let ghost view = claims_view(c@);
            let mut i: usize = 0;
            let mut found: Option<usize> = None;
            assert(view.skip(0) =~= view);
            while i < c.len()
                invariant_except_break
                    i <= c@.len(),
                    found is None,
                    view == claims_view(c@),
                    claim(view, name@) == claim(view.skip(i as int), name@),
                    i == c@.len() ==> view.skip(i as int) =~= Seq::<(Seq<char>, Seq<char>)>::empty(),
                ensures
                    view == claims_view(c@),
                    match found {
                        Some(j) => j < c@.len() && claim(view, name@) == Some(c@[j as int].1@),
                        None => claim(view, name@) is None,
                    },
                decreases c@.len() - i,
            {
                proof {
                    assert(view.skip(i as int).drop_first() =~= view.skip(i as int + 1));
                }
                if c[i].0 == name {
                    found = Some(i);
                    break;
                }
                i = i + 1;
            }
            proof {
                reveal_strlit("username");
            }
            match found {
                Some(j) => {
                    let username = c[j].1.clone();
                    ParsedCookie::User(Some(User { username, need_refresh: false }))
                },
                None => ParsedCookie::User(None),
            }
        },
    }
}

/// Reads the token of a request, if it has one, with `key`: no token
/// names no one; otherwise the token is verified and its claims read.
pub fn parse_cookie(token: Option<String>, key: &[u8]) -> (r: ParsedCookie)
    ensures
        match token {
            None => r matches ParsedCookie::User(None),
            Some(t) => parsed_as(r, verified_claims(t@, key@)),
        },
{
    match token {
        None => ParsedCookie::User(None),
        Some(t) => parse_claims(verify_token(t.as_str(), key)),
    }
}

/// Who a token says a request comes from: nothing when it does not
/// verify, else the name under its `username` claim, if it has one.
pub open spec fn token_player(token: Seq<char>, key: Seq<u8>) -> Option<Option<Seq<char>>> {
    match verified_claims(token, key) {
        None => None,
        Some(c) => Some(claim(c, "username"@)),
    }
}

/// Who a request comes from: nobody (it is refused) when its token does
/// not verify; the player its token names; or else a new guest.
pub fn authenticate(token: Option<String>, key: &[u8]) -> (r: Option<User>)
    ensures
        match token {
            None => r matches Some(u) && is_guest_name(u.name()) && u.needs_refresh(),
            Some(t) => match token_player(t@, key@) {
                None => r is None,
                Some(Some(name)) => r matches Some(u) && u.name() == name && !u.needs_refresh(),
                Some(None) => r matches Some(u) && is_guest_name(u.name()) && u.needs_refresh(),
            },
        },
{
    match parse_cookie(token, key) {
        ParsedCookie::User(Some(user)) => Some(user),
        ParsedCookie::User(None) => Some(User::default()),
        ParsedCookie::InvalidToken => None,
    }
}

/// The token to give the player, if it still needs one: the claim
/// `username` with its name, signed with `key`.
pub fn refreshed_token(user: &User, key: &[u8]) -> (r: Option<String>)
    ensures
        !user.needs_refresh() ==> r is None,
        user.needs_refresh() ==> (r matches Some(t) && t@ == signed_token("username"@, user.name(), key@)),
        r matches Some(t) ==> verified_claims(t@, key@) == Some(seq![("username"@, user.name())]),
{
    if user.need_refresh {
        Some(sign_claim("username", &user.username, key))
    } else {
        None
    }
}

/// A token given to a player names that player when it comes back: a
/// request that carries it is taken to come from that player.
pub proof fn law_token_names_its_player(token: Seq<char>, key: Seq<u8>, name: Seq<char>)
    requires
        verified_claims(token, key) == Some(seq![("username"@, name)]),
    ensures
        token_player(token, key) == Some(Some(name)),
{
    let c = seq![("username"@, name)];
    assert(c[0].0 == "username"@);
}

} // verus!
