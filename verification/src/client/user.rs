//! The player of this client, as the server's token names it.

use vstd::prelude::*;

use serde_json::Value;

verus! {

/// The player of this client.
pub struct User {
    pub username: String,
}

/// The value of the cookie `name` in `cookie_string`, if there is one:
/// its URI-decoded text, or nothing if decoding fails.
pub uninterp spec fn cookie_value(cookie_string: Seq<char>, name: Seq<char>) -> Option<Option<Seq<char>>>;

/// `wasm_cookies::cookies::get`: finds the cookie `name` among the
/// `;`-separated pairs of `cookie_string` and URI-decodes its value, or
/// fails to. What it finds, on given values, is left to the name
/// `cookie_value`.
#[verifier::external_body]
fn get_cookie(cookie_string: &str, name: &str) -> (r: Option<Option<String>>)
    ensures
        match r {
            None => cookie_value(cookie_string@, name@) is None,
            Some(None) => cookie_value(cookie_string@, name@) == Some(None::<Seq<char>>),
            Some(Some(v)) => cookie_value(cookie_string@, name@) == Some(Some(v@)),
        },
{
    match wasm_cookies::cookies::get(cookie_string, name) {
        None => None,
        Some(Ok(value)) => Some(Some(value)),
        Some(Err(_)) => Some(None),
    }
}

/// The server's token among the page's cookies: the decoded value of the
/// cookie `token`, or nothing if there is no such cookie or it does not
/// decode.
pub fn token_from_cookies(cookie_string: &str) -> (r: Option<String>)
    ensures
        match cookie_value(cookie_string@, "token"@) {
            Some(Some(v)) => r matches Some(t) && t@ == v,
            _ => r is None,
        },
{
    match get_cookie(cookie_string, "token") {
        Some(Some(token)) => Some(token),
        _ => None,
    }
}

/// The claims of a token read without checking its signature; nothing if
/// the token is not three parts of base64 JSON with a valid header, or its
/// claims are neither a JSON object nor a JSON array. The fields of an
/// object come as the text of their name and, when it is a JSON string, of
/// their value; the items of an array come with no name, by their text
/// when they are JSON strings.
pub uninterp spec fn unverified_claims(token: Seq<char>) -> Option<Seq<(Option<Seq<char>>, Option<Seq<char>>)>>;

/// The text of an optional string.
pub open spec fn text_view(s: Option<String>) -> Option<Seq<char>> {
    match s {
        Some(v) => Some(v@),
        None => None::<Seq<char>>,
    }
}

/// The claims, each by the text of its name and of its value.
pub open spec fn unverified_view(claims: Seq<(Option<String>, Option<String>)>) -> Seq<(Option<Seq<char>>, Option<Seq<char>>)> {
    claims.map_values(|c: (Option<String>, Option<String>)| (text_view(c.0), text_view(c.1)))
}

/// `jwt::Token::<Header, serde_json::Value, _>::parse_unverified`: splits
/// the token into its three parts and decodes the header and the claims
/// from base64 JSON, without checking the signature. An object's fields
/// come out in the order of its map, each with its name; an array's items
/// in their order, with none; each value as its text when it is a JSON
/// string and as nothing otherwise. What the outcome is, on a given token,
/// is left to the name `unverified_claims`.
#[verifier::external_body]
fn parse_unverified_claims(token: &str) -> (r: Option<Vec<(Option<String>, Option<String>)>>)
    ensures
        match r {
            Some(c) => unverified_claims(token@) == Some(unverified_view(c@)),
            None => unverified_claims(token@) is None,
        },
{
    let parsed: jwt::Token<jwt::Header, Value, _> = jwt::Token::parse_unverified(token).ok()?;
    match parsed.claims() {
        Value::Object(fields) => Some(fields.iter().map(|(n, v)| (Some(n.clone()), v.as_str().map(String::from))).collect()),
        Value::Array(items) => Some(items.iter().map(|v| (None, v.as_str().map(String::from))).collect()),
        Value::Null => None,
        Value::Bool(_) => None,
        Value::Number(_) => None,
        Value::String(_) => None,
    }
}

/// The value of the first claim named `name`, if any: its text when it is
/// a string, nothing otherwise.
pub open spec fn claim_value(claims: Seq<(Option<Seq<char>>, Option<Seq<char>>)>, name: Seq<char>) -> Option<Option<Seq<char>>>
    decreases claims.len(),
{
    if claims.len() == 0 {
        None
    } else if claims[0].0 == Some(name) {
        Some(claims[0].1)
    } else {
        claim_value(claims.drop_first(), name)
    }
}

/// The player that claims name, as a player's claims are read: an array
/// names the player by its one item, which is a string; an object by its
/// `username` field, which is a string. Anything else names no one.
pub open spec fn claims_user(claims: Seq<(Option<Seq<char>>, Option<Seq<char>>)>) -> Option<Seq<char>> {
    if claims.len() > 0 && claims[0].0 is None {
        if claims.len() == 1 { claims[0].1 } else { None }
    } else {
        match claim_value(claims, "username"@) {
            Some(v) => v,
            None => None,
        }
    }
}

/// The player named by the claims of a token, as `claims_user` reads them.
pub fn user_of_claims(claims: Option<Vec<(Option<String>, Option<String>)>>) -> (r: Option<User>)
    ensures
        match claims {
            Some(c) => match claims_user(unverified_view(c@)) {
                Some(n) => r matches Some(u) && u.username@ == n,
                None => r is None,
            },
            None => r is None,
        },
{
    match claims {
        None => None,
        Some(c) => {
            let ghost view = unverified_view(c@);
            if c.len() > 0 && c[0].0.is_none() {
                if c.len() == 1 {
                    match &c[0].1 {
                        Some(text) => Some(User { username: text.clone() }),
                        None => None,
                    }
                } else {
                    None
                }
            } else {
                let name = String::from_str("username");
                let mut i: usize = 0;
                let mut found: Option<usize> = None;
                assert(view.skip(0) =~= view);
                while i < c.len()
                    invariant_except_break
                        i <= c@.len(),
                        found is None,
                        view == unverified_view(c@),
                        claim_value(view, name@) == claim_value(view.skip(i as int), name@),
                        i == c@.len() ==> view.skip(i as int) =~= Seq::<(Option<Seq<char>>, Option<Seq<char>>)>::empty(),
                    ensures
                        view == unverified_view(c@),
                        match found {
                            Some(j) => j < c@.len() && claim_value(view, name@) == Some(view[j as int].1),
                            None => claim_value(view, name@) is None,
                        },
                    decreases c@.len() - i,
                {
                    proof {
                        assert(view.skip(i as int).drop_first() =~= view.skip(i as int + 1));
                    }
                    let is_name = match &c[i].0 {
                        Some(k) => *k == name,
                        None => false,
                    };
                    if is_name {
                        found = Some(i);
                        break;
                    }
                    i = i + 1;
                }
                proof {
                    reveal_strlit("username");
                }
                match found {
                    Some(j) => match &c[j].1 {
                        Some(text) => Some(User { username: text.clone() }),
                        None => None,
                    },
                    None => None,
                }
            }
        },
    }
}

/// The player of this client, read from the page's cookies: the player
/// named by the `token` cookie, whose signature is not checked; nothing if
/// there is no such cookie, it does not decode, or it names no one.
pub fn user_from_cookies(cookie_string: &str) -> (r: Option<User>)
    ensures
        match cookie_value(cookie_string@, "token"@) {
            Some(Some(t)) => match unverified_claims(t) {
                Some(c) => match claims_user(c) {
                    Some(n) => r matches Some(u) && u.username@ == n,
                    None => r is None,
                },
                None => r is None,
            },
            _ => r is None,
        },
{
    match token_from_cookies(cookie_string) {
        Some(token) => user_of_claims(parse_unverified_claims(token.as_str())),
        None => None,
    }
}

} // verus!
