//! Logging in with an e-mail code: what is taken from the identity provider's
//! tokens for the exchange, and the credentials read from the service's
//! answer.
use vstd::prelude::*;

use crate::json::{
    entries_get, non_empty_text, direct_key_text, field_texts, find_first_key_in_object, first_key_text, keys_view, object_text,
    serde_json_object_text, JsonObject, JsonTree,
};
use crate::text::concat_str;
use crate::types::{text_or_empty, AuthInfo, Error, Result};
use crate::utils::{infer_user_id_from_token, normalize_token, normalized, token_user_id};

verus! {

/// The login client. It holds nothing: the requests it makes are the
/// application's.
#[derive(Debug, Default)]
pub struct TurboflowLogin;

impl TurboflowLogin {
    /// A login client.
    pub fn new() -> (r: TurboflowLogin) {
        TurboflowLogin
    }
}

/// The keys a token is looked for under in the service's login answer, in
/// order: `access_token`, `token`, `jwt_token`, `jwt`, `authorization`.
pub open spec fn token_keys() -> Seq<Seq<char>> {
    seq![
        "access_token"@,
        "token"@,
        "jwt_token"@,
        "jwt"@,
        "authorization"@,
    ]
}

/// The keys a user id is looked for under in the service's login answer, in
/// order: `account_id`, `accountId`, `user_id`, `userId`, `uid`.
pub open spec fn user_id_keys() -> Seq<Seq<char>> {
    seq![
        "account_id"@,
        "accountId"@,
        "user_id"@,
        "userId"@,
        "uid"@,
    ]
}

/// The token of a login answer: the first text found under the token keys,
/// normalised; empty where there is none.
pub open spec fn answer_token(data: Seq<(Seq<char>, JsonTree)>) -> Seq<char> {
    normalized(text_or_empty(first_key_text(JsonTree::Object(data), token_keys())))
}

/// The user id of a login answer: the first text found under the user-id
/// keys; otherwise the one the token carries; otherwise empty.
pub open spec fn answer_user_id(data: Seq<(Seq<char>, JsonTree)>, token: Seq<char>) -> Seq<char> {
    match first_key_text(JsonTree::Object(data), user_id_keys()) {
        Some(id) => id,
        None => text_or_empty(token_user_id(token)),
    }
}

/// Reads the token out of the service's login answer.
pub fn extract_turboflow_token(turboflow_data: &JsonObject) -> (r: String)
    ensures
        r@ == answer_token(turboflow_data@),
{
    let mut keys: Vec<&str> = Vec::new();
    keys.push("access_token");
    keys.push("token");
    keys.push("jwt_token");
    keys.push("jwt");
    keys.push("authorization");
    assert(keys_view(keys@) =~= token_keys());
    let found = find_first_key_in_object(turboflow_data, keys.as_slice());
    match found {
        Some(t) => normalize_token(Some(t.as_str())),
        None => normalize_token(None),
    }
}

/// Reads the user id out of the service's login answer, falling back on the
/// one the token carries.
pub fn extract_user_id(turboflow_data: &JsonObject, token: &str) -> (r: String)
    ensures
        r@ == answer_user_id(turboflow_data@, token@),
        first_key_text(JsonTree::Object(turboflow_data@), user_id_keys()) matches Some(id) ==> r@
            == id,
        first_key_text(JsonTree::Object(turboflow_data@), user_id_keys()) is None ==> r@
            == text_or_empty(token_user_id(token@)),
{
    let mut keys: Vec<&str> = Vec::new();
    keys.push("account_id");
    keys.push("accountId");
    keys.push("user_id");
    keys.push("userId");
    keys.push("uid");
    assert(keys_view(keys@) =~= user_id_keys());
    match find_first_key_in_object(turboflow_data, keys.as_slice()) {
        Some(id) => id,
        None => match infer_user_id_from_token(token) {
            Some(id) => id,
            None => String::new(),
        },
    }
}

/// The answer's own user id beats the token's: where the login answer holds
/// a user id under one of the user-id keys, that is the user id, whatever
/// claims the token carries; a non-blank `account_id` field of the answer
/// itself is taken first, trimmed. Only an answer without one falls back on
/// the token.
pub proof fn lemma_answer_user_id_first(
    data: Seq<(Seq<char>, JsonTree)>,
    token: Seq<char>,
    other_token: Seq<char>,
)
    ensures
        first_key_text(JsonTree::Object(data), user_id_keys()) matches Some(id) ==> answer_user_id(
            data,
            token,
        ) == id && answer_user_id(data, other_token) == id,
        entries_get(data, "account_id"@) matches Some(v) ==> (non_empty_text(v) matches Some(s)
            ==> answer_user_id(data, token) == s),
        first_key_text(JsonTree::Object(data), user_id_keys()) is None ==> answer_user_id(
            data,
            token,
        ) == text_or_empty(token_user_id(token)),
{
    let keys = user_id_keys();
    assert(keys[0] == "account_id"@);
    if let Some(v) = entries_get(data, "account_id"@) {
        if let Some(s) = non_empty_text(v) {
            assert(direct_key_text(data, keys) == Some(s));
        }
    }
}

/// The identity provider's access token and identity token, as the exchange
/// sends them: the first text under `token` and under `identity_token`
/// anywhere in its answer; empty where there is none.
pub fn exchange_tokens(privy_tokens: &JsonObject) -> (r: (String, String))
    ensures
        r.0@ == text_or_empty(first_key_text(JsonTree::Object(privy_tokens@), seq!["token"@])),
        r.1@ == text_or_empty(
            first_key_text(JsonTree::Object(privy_tokens@), seq!["identity_token"@]),
        ),
{
    let mut access_keys: Vec<&str> = Vec::new();
    access_keys.push("token");
    assert(keys_view(access_keys@) =~= seq!["token"@]);
    let mut identity_keys: Vec<&str> = Vec::new();
    identity_keys.push("identity_token");
    assert(keys_view(identity_keys@) =~= seq!["identity_token"@]);
    let access = match find_first_key_in_object(privy_tokens, access_keys.as_slice()) {
        Some(t) => t,
        None => String::new(),
    };
    let identity = match find_first_key_in_object(privy_tokens, identity_keys.as_slice()) {
        Some(t) => t,
        None => String::new(),
    };
    (access, identity)
}

/// The fields of the `Authorization` the token exchange sends: the provider
/// and method, the access token, the e-mail as address, the identity token,
/// and no referral code.
pub open spec fn exchange_fields(access: Seq<char>, email: Seq<char>, identity: Seq<char>) -> Seq<
    (Seq<char>, Option<Seq<char>>),
> {
    seq![
        ("pf"@, Some("privy"@)),
        ("method"@, Some("email"@)),
        ("access_token"@, Some(access)),
        ("address"@, Some(email)),
        ("identity_token"@, Some(identity)),
        ("referral_code"@, None),
    ]
}

/// The `Authorization` value of the token exchange: the JSON object of the
/// identity provider's access and identity tokens (as [`exchange_tokens`]
/// finds them) and the e-mail.
pub fn exchange_authorization(privy_tokens: &JsonObject, email: &str) -> (r: String)
    ensures
        r@ == serde_json_object_text(
            exchange_fields(
                text_or_empty(first_key_text(JsonTree::Object(privy_tokens@), seq!["token"@])),
                email@,
                text_or_empty(
                    first_key_text(JsonTree::Object(privy_tokens@), seq!["identity_token"@]),
                ),
            ),
        ),
{
    let (access, identity) = exchange_tokens(privy_tokens);
    let ghost a = access@;
    let ghost i = identity@;
    let mut fields: Vec<(String, Option<String>)> = Vec::new();
    fields.push(("pf".to_owned(), Some("privy".to_owned())));
    fields.push(("method".to_owned(), Some("email".to_owned())));
    fields.push(("access_token".to_owned(), Some(access)));
    fields.push(("address".to_owned(), Some(email.to_owned())));
    fields.push(("identity_token".to_owned(), Some(identity)));
    fields.push(("referral_code".to_owned(), None));
    assert(field_texts(fields@) =~= exchange_fields(a, email@, i));
    object_text(&fields)
}

/// The message of a login whose answer lacks a token or a user id.
pub open spec fn empty_login_message(raw_response: Seq<char>) -> Seq<char> {
    "login succeeded but token or user_id is empty; raw response: "@ + raw_response
}

/// The credentials of a login: the token and user id read from the service's
/// answer, with the e-mail logged in with. An answer without either gives an
/// authentication error that quotes `raw_response`, the answer as displayed.
pub fn login_result(turboflow_data: &JsonObject, raw_response: &str, email: &str) -> (r:
    Result<AuthInfo>)
    ensures
        ({
            let token = answer_token(turboflow_data@);
            let user_id = answer_user_id(turboflow_data@, token);
            if token.len() == 0 || user_id.len() == 0 {
                r matches Err(Error::Auth(m)) && m@ == empty_login_message(raw_response@)
            } else {
                r matches Ok(info) && info.token@ == token && info.user_id@ == user_id
                    && info.email@ == email@
            }
        }),
{
    let token = extract_turboflow_token(turboflow_data);
    let user_id = extract_user_id(turboflow_data, token.as_str());
    if token.as_str().is_empty() || user_id.as_str().is_empty() {
        let m = concat_str(
            "login succeeded but token or user_id is empty; raw response: ",
            raw_response,
        );
        return Err(Error::Auth(m));
    }
    Ok(AuthInfo { token, user_id, email: email.to_owned() })
}

} // verus!
