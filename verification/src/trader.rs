//! The trading client's state and rules: which credentials it resolves, the
//! headers it sends, when it may order, and what it reads from each reply.
use vstd::prelude::*;

use crate::json::{
    entries_get, objects_of, tree_as_array, tree_as_i64, tree_as_object, tree_as_str, tree_get,
    JsonObject, JsonTree, JsonValue, text_opt, trees,
};
use crate::text::{concat_str, is_blank, starts_with, str_eq, trim, trim_str};
use crate::types::{
    is_success, text_or_empty, ApiResponse, AuthInfo, AuthStatus, Error, PlaceOrderRequest, Result,
};
use crate::utils::{
    bearer_prefix, bearer_prefix_lower, infer_user_id_from_token, normalize_token, normalized, opt_text,
    token_user_id,
};

verus! {

/// The service's address.
pub const BASE_URL: &'static str = "https://api.turboflow.xyz";

/// The values of the environment variables credentials fall back on, in the
/// order they are consulted (`TURBOFLOW_JWT_TOKEN`, `JWT_TOKEN`;
/// `TURBOFLOW_USER_ID`, `USER_ID`); unset ones are left out.
#[derive(Debug, Clone)]
pub struct EnvCredentials {
    pub tokens: Vec<String>,
    pub user_ids: Vec<String>,
}

impl EnvCredentials {
    /// An environment that sets none of the variables.
    pub fn none() -> (r: EnvCredentials)
        ensures
            r.tokens@.len() == 0,
            r.user_ids@.len() == 0,
    {
        EnvCredentials { tokens: Vec::new(), user_ids: Vec::new() }
    }
}

/// The texts of a sequence of strings.
pub open spec fn texts(vs: Seq<String>) -> Seq<Seq<char>> {
    vs.map_values(|v: String| v@)
}

/// The first of `vs` that is not blank, trimmed.
pub open spec fn first_non_blank(vs: Seq<Seq<char>>) -> Option<Seq<char>>
    decreases vs.len(),
{
    if vs.len() == 0 {
        None
    } else if !is_blank(vs[0]) {
        Some(trim(vs[0]))
    } else {
        first_non_blank(vs.drop_first())
    }
}

/// The first of the environment values that is not blank, trimmed.
pub fn first_env_value(values: &Vec<String>) -> (r: Option<String>)
    ensures
        text_opt(r) == first_non_blank(texts(values@)),
{
    let ghost all = texts(values@);
    let mut i: usize = 0;
    assert(all.skip(0) =~= all);
    while i < values.len()
        invariant
            i <= values.len(),
            all == texts(values@),
            first_non_blank(all) == first_non_blank(all.skip(i as int)),
        decreases values.len() - i,
    {
        proof {
            assert(all.skip(i as int)[0] == values@[i as int]@);
            assert(all.skip(i as int).drop_first() =~= all.skip(i + 1));
        }
        let t = trim_str(values[i].as_str());
        if !t.as_str().is_empty() {
            return Some(t);
        }
        i = i + 1;
    }
    None
}

/// The token a client uses: the given one normalised, where that is not
/// empty; otherwise the first non-blank environment token, trimmed.
pub open spec fn resolved_token(token: Seq<char>, env_tokens: Seq<Seq<char>>) -> Option<Seq<char>> {
    if normalized(token).len() > 0 {
        Some(normalized(token))
    } else {
        first_non_blank(env_tokens)
    }
}

/// The user id a client uses: the given one trimmed, where that is not
/// blank; otherwise the first non-blank environment user id, trimmed;
/// otherwise the one the resolved token carries.
pub open spec fn resolved_user_id(
    user_id: Option<Seq<char>>,
    env_user_ids: Seq<Seq<char>>,
    token: Option<Seq<char>>,
) -> Option<Seq<char>> {
    match user_id {
        Some(u) if !is_blank(u) => Some(trim(u)),
        _ => match first_non_blank(env_user_ids) {
            Some(u) => Some(u),
            None => match token {
                Some(t) => token_user_id(t),
                None => None,
            },
        },
    }
}

/// Credentials given explicitly win over the environment: a token that is
/// not empty once normalised is the one used, a user id that is not blank is
/// the one used, trimmed.
pub proof fn lemma_explicit_credentials_win(
    token: Seq<char>,
    user_id: Seq<char>,
    env_tokens: Seq<Seq<char>>,
    env_user_ids: Seq<Seq<char>>,
)
    ensures
        normalized(token).len() > 0 ==> resolved_token(token, env_tokens) == Some(normalized(token)),
        !is_blank(user_id) ==> forall|t: Option<Seq<char>>|
            resolved_user_id(Some(user_id), env_user_ids, t) == Some(trim(user_id)),
{
}

/// Stored credentials with a token that survives normalisation and a user id
/// that is not blank make a configured client, whatever the environment.
pub proof fn lemma_stored_credentials_configure(
    token: Seq<char>,
    user_id: Seq<char>,
    env_tokens: Seq<Seq<char>>,
    env_user_ids: Seq<Seq<char>>,
)
    requires
        normalized(token).len() > 0,
        !is_blank(user_id),
    ensures
        configured(
            resolved_token(text_or_empty(non_empty(token)), env_tokens),
            resolved_user_id(
                non_empty(user_id),
                env_user_ids,
                resolved_token(text_or_empty(non_empty(token)), env_tokens),
            ),
        ),
{
    assert(token.len() > 0) by {
        if token.len() == 0 {
            assert(trim(token) =~= token);
            assert(token =~= Seq::<char>::empty());
        }
    }
    assert(user_id.len() > 0) by {
        if user_id.len() == 0 {
            assert(trim(user_id).len() == 0);
        }
    }
}

/// The characters of an optional text.
pub open spec fn opt_view(o: Option<&str>) -> Option<Seq<char>> {
    match o {
        Some(s) => Some(s@),
        None => None,
    }
}

/// Resolves the token and user id a client uses from the given ones and the
/// environment; a user id can also come from the token's payload.
pub fn resolve_credentials(token: Option<&str>, user_id: Option<&str>, env: &EnvCredentials) -> (r:
    (Option<String>, Option<String>))
    ensures
        text_opt(r.0) == resolved_token(opt_text(token), texts(env.tokens@)),
        text_opt(r.1) == resolved_user_id(
            opt_view(user_id),
            texts(env.user_ids@),
            resolved_token(opt_text(token), texts(env.tokens@)),
        ),
{
    let n = normalize_token(token);
    let resolved_token = if n.as_str().is_empty() {
        first_env_value(&env.tokens)
    } else {
        Some(n)
    };
    let explicit = match user_id {
        Some(u) => {
            let t = trim_str(u);
            if t.as_str().is_empty() {
                None
            } else {
                Some(t)
            }
        },
        None => None,
    };
    let resolved_user_id = match explicit {
        Some(u) => Some(u),
        None => match first_env_value(&env.user_ids) {
            Some(u) => Some(u),
            None => match &resolved_token {
                Some(t) => infer_user_id_from_token(t.as_str()),
                None => None,
            },
        },
    };
    (resolved_token, resolved_user_id)
}

/// The headers every request to the service carries.
pub open spec fn base_headers() -> Seq<(Seq<char>, Seq<char>)> {
    seq![
        ("User-Agent"@, "Mozilla/5.0 (Windows NT 10.0; Win64; x64) AppleWebKit/537.36 (KHTML, like Gecko) Chrome/148.0.0.0 Safari/537.36"@),
        ("Accept"@, "application/json, text/plain, */*"@),
        ("Accept-Language"@, "zh-CN,zh;q=0.9"@),
        ("Origin"@, "https://www.turboflow.xyz"@),
        ("Referer"@, "https://www.turboflow.xyz/"@),
        ("biz-pf"@, "6"@),
        ("lang"@, "zh-cn"@),
        ("Content-Type"@, "application/json"@),
    ]
}

/// The headers of a client with the given credentials: the base headers,
/// then `Authorization: Bearer <token>` where there is a token, then
/// `uid: <user id>` where there is a user id.
pub open spec fn credential_headers(token: Option<Seq<char>>, user_id: Option<Seq<char>>) -> Seq<
    (Seq<char>, Seq<char>),
> {
    base_headers() + match token {
        Some(t) => seq![("Authorization"@, "Bearer "@ + t)],
        None => Seq::empty(),
    } + match user_id {
        Some(u) => seq![("uid"@, u)],
        None => Seq::empty(),
    }
}

/// The names and values of a list of headers.
pub open spec fn header_texts(hs: Seq<(String, String)>) -> Seq<(Seq<char>, Seq<char>)> {
    hs.map_values(|h: (String, String)| (h.0@, h.1@))
}

fn push_header(hs: &mut Vec<(String, String)>, name: &str, value: String)
    ensures
        header_texts(final(hs)@) == header_texts(old(hs)@).push((name@, value@)),
{
    hs.push((name.to_owned(), value));
    assert(header_texts(final(hs)@) =~= header_texts(old(hs)@).push((name@, value@)));
}

/// The headers of a client: credentials are resolved (again) from the given
/// ones and the environment, then added to the base headers.
pub fn build_headers(token: Option<&str>, user_id: Option<&str>, env: &EnvCredentials) -> (r: Vec<
    (String, String),
>)
    ensures
        ({
            let t = resolved_token(opt_text(token), texts(env.tokens@));
            header_texts(r@) == credential_headers(
                t,
                resolved_user_id(opt_view(user_id), texts(env.user_ids@), t),
            )
        }),
{
    let (t, u) = resolve_credentials(token, user_id, env);
    let mut hs: Vec<(String, String)> = Vec::new();
    push_header(
        &mut hs,
        "User-Agent",
        "Mozilla/5.0 (Windows NT 10.0; Win64; x64) AppleWebKit/537.36 (KHTML, like Gecko) Chrome/148.0.0.0 Safari/537.36".to_owned(),
    );
    push_header(&mut hs, "Accept", "application/json, text/plain, */*".to_owned());
    push_header(&mut hs, "Accept-Language", "zh-CN,zh;q=0.9".to_owned());
    push_header(&mut hs, "Origin", "https://www.turboflow.xyz".to_owned());
    push_header(&mut hs, "Referer", "https://www.turboflow.xyz/".to_owned());
    push_header(&mut hs, "biz-pf", "6".to_owned());
    push_header(&mut hs, "lang", "zh-cn".to_owned());
    push_header(&mut hs, "Content-Type", "application/json".to_owned());
    assert(header_texts(hs@) =~= base_headers());
    let ghost base = header_texts(hs@);
    match &t {
        Some(tok) => {
            push_header(&mut hs, "Authorization", concat_str("Bearer ", tok.as_str()));
        },
        None => {},
    }
    let ghost with_token = header_texts(hs@);
    match &u {
        Some(uid) => {
            push_header(&mut hs, "uid", uid.as_str().to_owned());
        },
        None => {},
    }
    proof {
        let tv = text_opt(t);
        let uv = text_opt(u);
        assert(with_token =~= base + match tv {
            Some(x) => seq![("Authorization"@, "Bearer "@ + x)],
            None => Seq::<(Seq<char>, Seq<char>)>::empty(),
        });
        assert(header_texts(hs@) =~= credential_headers(tv, uv));
    }
    hs
}

proof fn lemma_first_non_blank_trimmed(vs: Seq<Seq<char>>)
    ensures
        first_non_blank(vs) matches Some(u) ==> !is_blank(u) && trim(u) == u,
    decreases vs.len(),
{
    if vs.len() > 0 {
        if !is_blank(vs[0]) {
            crate::text::lemma_trim_idempotent(vs[0]);
        } else {
            lemma_first_non_blank_trimmed(vs.drop_first());
        }
    }
}

/// A client's requests carry its own credentials: `Authorization: Bearer
/// <token>` with the token it holds and `uid: <user id>` with the user id it
/// holds, resolving them a second time changing neither. This holds unless
/// the token in use still starts with a `Bearer ` prefix (the second pass
/// strips it), or the user id is one read from the token that has
/// whitespace at an end.
pub proof fn lemma_headers_carry_credentials(
    token: Seq<char>,
    user_id: Option<Seq<char>>,
    env_tokens: Seq<Seq<char>>,
    env_user_ids: Seq<Seq<char>>,
)
    requires
        resolved_token(token, env_tokens) matches Some(x) ==> !starts_with(x, bearer_prefix())
            && !starts_with(x, bearer_prefix_lower()),
        resolved_user_id(user_id, env_user_ids, resolved_token(token, env_tokens)) matches Some(
            u,
        ) ==> trim(u) == u,
    ensures
        ({
            let t1 = resolved_token(token, env_tokens);
            let u1 = resolved_user_id(user_id, env_user_ids, t1);
            let t2 = resolved_token(text_or_empty(t1), env_tokens);
            &&& t2 == t1
            &&& resolved_user_id(u1, env_user_ids, t2) == u1
            &&& credential_headers(t2, resolved_user_id(u1, env_user_ids, t2))
                == credential_headers(t1, u1)
        }),
{
    let t1 = resolved_token(token, env_tokens);
    let u1 = resolved_user_id(user_id, env_user_ids, t1);
    lemma_first_non_blank_trimmed(env_tokens);
    lemma_first_non_blank_trimmed(env_user_ids);
    crate::utils::lemma_normalized_is_trimmed(token);
    match t1 {
        Some(x) => {
            assert(x.len() > 0) by {
                if normalized(token).len() == 0 {
                    if x.len() == 0 {
                        assert(trim(x).len() == 0);
                    }
                }
            }
            assert(trim(x) == x);
            assert(normalized(x) == x);
        },
        None => {
            let e = Seq::<char>::empty();
            assert(trim(e) =~= e);
            assert(normalized(e).len() == 0);
        },
    }
    match u1 {
        Some(u) => {
            if is_blank(u) {
                assert(first_non_blank(env_user_ids) is None);
            }
        },
        None => {},
    }
}

/// A client's state: the service address, the credentials it resolved, and
/// the headers its requests carry.
#[derive(Debug, Clone)]
pub struct TurboflowTrader {
    base_url: String,
    token: Option<String>,
    user_id: Option<String>,
    headers: Vec<(String, String)>,
}

/// The shortened form of a token that a status shows: its first 8 bytes,
/// `...`, its last 6 bytes; empty for a token of at most 18 bytes.
pub open spec fn token_preview_text(token: Option<Seq<char>>) -> Seq<char> {
    match token {
        Some(t) => {
            let b = vstd::utf8::encode_utf8(t);
            if b.len() > 18 {
                vstd::utf8::decode_utf8(b.take(8)) + "..."@ + vstd::utf8::decode_utf8(
                    b.skip(b.len() - 6),
                )
            } else {
                Seq::empty()
            }
        },
        None => Seq::empty(),
    }
}

/// A token the preview can cut: one of at most 18 bytes, or one where bytes
/// 8 and `len - 6` start characters (as they do in an ASCII token).
pub open spec fn preview_cuttable(token: Option<Seq<char>>) -> bool {
    match token {
        Some(t) => {
            let b = vstd::utf8::encode_utf8(t);
            &&& b.len() <= usize::MAX
            &&& b.len() > 18 ==> vstd::utf8::is_char_boundary(b, 8) && vstd::utf8::is_char_boundary(b, b.len() - 6)
        },
        None => true,
    }
}

/// Whether credentials are complete: a token and a user id, neither empty.
pub open spec fn configured(token: Option<Seq<char>>, user_id: Option<Seq<char>>) -> bool {
    &&& token matches Some(t) && t.len() > 0
    &&& user_id matches Some(u) && u.len() > 0
}

/// A non-empty text, or nothing.
pub open spec fn non_empty(s: Seq<char>) -> Option<Seq<char>> {
    if s.len() > 0 {
        Some(s)
    } else {
        None
    }
}

impl TurboflowTrader {
    /// The service address.
    pub closed spec fn base_url_view(&self) -> Seq<char> {
        self.base_url@
    }

    /// The token in use.
    pub closed spec fn token_view(&self) -> Option<Seq<char>> {
        text_opt(self.token)
    }

    /// The user id in use.
    pub closed spec fn user_id_view(&self) -> Option<Seq<char>> {
        text_opt(self.user_id)
    }

    /// The headers requests carry.
    pub closed spec fn headers_view(&self) -> Seq<(Seq<char>, Seq<char>)> {
        header_texts(self.headers@)
    }

    /// A client of the service at `base_url`, with credentials resolved from
    /// the given ones and the environment; its headers resolve them once more
    /// from the resolved ones.
    pub fn with_base_url(
        base_url: &str,
        token: Option<&str>,
        user_id: Option<&str>,
        env: &EnvCredentials,
    ) -> (r: TurboflowTrader)
        ensures
            r.base_url_view() == base_url@,
            r.token_view() == resolved_token(opt_text(token), texts(env.tokens@)),
            r.user_id_view() == resolved_user_id(
                opt_view(user_id),
                texts(env.user_ids@),
                resolved_token(opt_text(token), texts(env.tokens@)),
            ),
            ({
                let t = r.token_view();
                let t2 = resolved_token(text_or_empty(t), texts(env.tokens@));
                r.headers_view() == credential_headers(
                    t2,
                    resolved_user_id(r.user_id_view(), texts(env.user_ids@), t2),
                )
            }),
    {
        let (token, user_id) = resolve_credentials(token, user_id, env);
        let headers = match (&token, &user_id) {
            (Some(t), Some(u)) => build_headers(Some(t.as_str()), Some(u.as_str()), env),
            (Some(t), None) => build_headers(Some(t.as_str()), None, env),
            (None, Some(u)) => build_headers(None, Some(u.as_str()), env),
            (None, None) => build_headers(None, None, env),
        };
        TurboflowTrader { base_url: base_url.to_owned(), token, user_id, headers }
    }

    /// A client of the service at [`BASE_URL`].
    pub fn new(token: Option<&str>, user_id: Option<&str>, env: &EnvCredentials) -> (r:
        TurboflowTrader)
        ensures
            r.base_url_view() == BASE_URL@,
            r.token_view() == resolved_token(opt_text(token), texts(env.tokens@)),
            r.user_id_view() == resolved_user_id(
                opt_view(user_id),
                texts(env.user_ids@),
                resolved_token(opt_text(token), texts(env.tokens@)),
            ),
            ({
                let t = r.token_view();
                let t2 = resolved_token(text_or_empty(t), texts(env.tokens@));
                r.headers_view() == credential_headers(
                    t2,
                    resolved_user_id(r.user_id_view(), texts(env.user_ids@), t2),
                )
            }),
    {
        TurboflowTrader::with_base_url(BASE_URL, token, user_id, env)
    }

    /// A client with stored credentials; an empty token or user id counts as
    /// none given.
    pub fn from_auth(auth: &AuthInfo, env: &EnvCredentials) -> (r: TurboflowTrader)
        ensures
            r.base_url_view() == BASE_URL@,
            r.token_view() == resolved_token(text_or_empty(non_empty(auth.token@)), texts(env.tokens@)),
            r.user_id_view() == resolved_user_id(
                non_empty(auth.user_id@),
                texts(env.user_ids@),
                resolved_token(text_or_empty(non_empty(auth.token@)), texts(env.tokens@)),
            ),
            ({
                let t = r.token_view();
                let t2 = resolved_token(text_or_empty(t), texts(env.tokens@));
                r.headers_view() == credential_headers(
                    t2,
                    resolved_user_id(r.user_id_view(), texts(env.user_ids@), t2),
                )
            }),
    {
        let token = if auth.token.as_str().is_empty() {
            None
        } else {
            Some(auth.token.as_str())
        };
        let user_id = if auth.user_id.as_str().is_empty() {
            None
        } else {
            Some(auth.user_id.as_str())
        };
        TurboflowTrader::new(token, user_id, env)
    }

    /// The service address.
    pub fn base_url(&self) -> (r: &str)
        ensures
            r@ == self.base_url_view(),
    {
        self.base_url.as_str()
    }

    /// The token in use.
    pub fn token(&self) -> (r: Option<&str>)
        ensures
            opt_view(r) == self.token_view(),
    {
        match &self.token {
            Some(t) => Some(t.as_str()),
            None => None,
        }
    }

    /// The user id in use.
    pub fn user_id(&self) -> (r: Option<&str>)
        ensures
            opt_view(r) == self.user_id_view(),
    {
        match &self.user_id {
            Some(u) => Some(u.as_str()),
            None => None,
        }
    }

    /// The headers requests carry, names with values.
    pub fn headers(&self) -> (r: &Vec<(String, String)>)
        ensures
            header_texts(r@) == self.headers_view(),
    {
        &self.headers
    }

    /// Whether the client has a token and a user id, neither empty.
    pub fn is_configured(&self) -> (r: bool)
        ensures
            r == configured(self.token_view(), self.user_id_view()),
    {
        let has_token = match &self.token {
            Some(t) => !t.as_str().is_empty(),
            None => false,
        };
        let has_user = match &self.user_id {
            Some(u) => !u.as_str().is_empty(),
            None => false,
        };
        has_token && has_user
    }

    /// The status of the client's credentials; `expires_at` is the token's
    /// expiry as the status shows it.
    pub fn auth_status(&self, expires_at: Option<String>) -> (r: AuthStatus)
        requires
            preview_cuttable(self.token_view()),
        ensures
            r.configured == configured(self.token_view(), self.user_id_view()),
            r.user_id@ == text_or_empty(self.user_id_view()),
            r.token_preview@ == token_preview_text(self.token_view()),
            r.expires_at == expires_at,
    {
        let token_preview = match &self.token {
            Some(t) => token_preview(t.as_str()),
            None => String::new(),
        };
        let user_id = match &self.user_id {
            Some(u) => u.as_str().to_owned(),
            None => String::new(),
        };
        AuthStatus { configured: self.is_configured(), user_id, token_preview, expires_at }
    }

    /// Refuses to go on without complete credentials.
    pub fn check_configured(&self) -> (r: Result<()>)
        ensures
            configured(self.token_view(), self.user_id_view()) <==> r is Ok,
            r matches Err(e) ==> (e matches Error::Config(m) && m@ == "missing token/user_id"@),
    {
        if !self.is_configured() {
            return Err(Error::Config("missing token/user_id".to_owned()));
        }
        Ok(())
    }

    /// The body of an order for this client's account, in USDT (coin code
    /// `"1"`); an error where the credentials are not complete.
    pub fn order_request(
        &self,
        pair_id: &str,
        amount: &str,
        duration: i64,
        order_way: i32,
        return_rate: Option<i64>,
        pool_id: i32,
    ) -> (r: Result<PlaceOrderRequest>)
        ensures
            !configured(self.token_view(), self.user_id_view()) ==> (r matches Err(Error::Config(m))
                && m@ == "missing token/user_id"@),
            configured(self.token_view(), self.user_id_view()) ==> (r matches Ok(req)
                && Some(req.account_id@) == self.user_id_view() && req.amount@ == amount@
                && req.duration == duration && req.order_way == order_way && req.pair_id@
                == pair_id@ && req.pool_id == pool_id && req.coin_code@ == "1"@ && req.return_rate
                == return_rate),
    {
        self.check_configured()?;
        let account_id = match &self.user_id {
            Some(u) => u.as_str().to_owned(),
            None => String::new(),
        };
        Ok(
            PlaceOrderRequest {
                account_id,
                amount: amount.to_owned(),
                duration,
                order_way,
                pair_id: pair_id.to_owned(),
                pool_id,
                coin_code: "1".to_owned(),
                return_rate,
            },
        )
    }
}

/// The shortened form of a token: its first 8 bytes, `...`, its last 6
/// bytes; empty for a token of at most 18 bytes.
fn token_preview(t: &str) -> (r: String)
    requires
        preview_cuttable(Some(t@)),
    ensures
        r@ == token_preview_text(Some(t@)),
{
    let n = t.len();
    proof {
        assert(n == vstd::utf8::encode_utf8(t@).len());
    }
    if n > 18 {
        let (head, _) = t.split_at(8);
        let (_, tail) = t.split_at(n - 6);
        proof {
            vstd::utf8::encode_utf8_decode_utf8(head@);
            vstd::utf8::encode_utf8_decode_utf8(tail@);
            reveal_strlit("...");
        }
        let with_dots = concat_str(head, "...");
        concat_str(with_dots.as_str(), tail)
    } else {
        String::new()
    }
}

/// The model of an optional payload.
pub open spec fn data_tree(data: Option<JsonValue>) -> Option<JsonTree> {
    match data {
        Some(d) => Some(d.tree()),
        None => None,
    }
}

/// The number zero, which a missing amount stands for.
pub open spec fn zero_tree() -> JsonTree {
    JsonTree::Number(seq!['0'], Some(0i64))
}

/// The elements of an optional array value; none for anything else.
pub open spec fn array_or_empty(v: Option<JsonTree>) -> Seq<JsonTree> {
    match v {
        Some(t) => match tree_as_array(t) {
            Some(a) => a,
            None => Seq::empty(),
        },
        None => Seq::empty(),
    }
}

/// The field `key` of a value, or zero where it has none.
pub open spec fn field_or_zero(t: JsonTree, key: Seq<char>) -> JsonTree {
    match tree_get(t, key) {
        Some(v) => v,
        None => zero_tree(),
    }
}

/// The elements of the field `key` of an optional payload, where that is an
/// array; none otherwise.
pub open spec fn listed(data: Option<JsonTree>, key: Seq<char>) -> Seq<JsonTree> {
    match data {
        Some(d) => array_or_empty(tree_get(d, key)),
        None => Seq::empty(),
    }
}

/// Whether a coin entry is USDT: its `coin_code` is the string `"1"`.
pub open spec fn coin_is_usdt(coin: JsonTree) -> bool {
    match tree_get(coin, "coin_code"@) {
        Some(v) => tree_as_str(v) == Some("1"@),
        None => false,
    }
}

/// The available balances of the USDT entries among `coins`, in order; an
/// entry without one counts zero.
pub open spec fn usdt_balances(coins: Seq<JsonTree>) -> Seq<JsonTree>
    decreases coins.len(),
{
    if coins.len() == 0 {
        Seq::empty()
    } else if coin_is_usdt(coins[0]) {
        seq![field_or_zero(coins[0], "available_balance"@)] + usdt_balances(coins.drop_first())
    } else {
        usdt_balances(coins.drop_first())
    }
}

proof fn lemma_usdt_balances_append(a: Seq<JsonTree>, b: Seq<JsonTree>)
    ensures
        usdt_balances(a + b) == usdt_balances(a) + usdt_balances(b),
    decreases a.len(),
{
    if a.len() == 0 {
        assert(a + b =~= b);
        assert(usdt_balances(a) + usdt_balances(b) =~= usdt_balances(b));
    } else {
        assert((a + b).drop_first() =~= a.drop_first() + b);
        lemma_usdt_balances_append(a.drop_first(), b);
        assert((a + b)[0] == a[0]);
        if coin_is_usdt(a[0]) {
            assert(usdt_balances(a + b) =~= seq![field_or_zero(a[0], "available_balance"@)]
                + (usdt_balances(a.drop_first()) + usdt_balances(b)));
        }
    }
}

/// Only a coin whose `coin_code` is exactly the string `"1"` counts as USDT,
/// and the balances read from a list are those of its USDT entries, one per
/// entry, in order: appending an entry adds its available balance (zero where
/// it has none) when it is USDT, and nothing otherwise.
pub proof fn lemma_usdt_entries(coins: Seq<JsonTree>, coin: JsonTree)
    ensures
        coin_is_usdt(coin) <==> tree_get(coin, "coin_code"@) == Some(JsonTree::String("1"@)),
        usdt_balances(Seq::empty()) == Seq::<JsonTree>::empty(),
        usdt_balances(coins.push(coin)) == usdt_balances(coins) + (if tree_get(coin, "coin_code"@)
            == Some(JsonTree::String("1"@)) {
            seq![
                match tree_get(coin, "available_balance"@) {
                    Some(b) => b,
                    None => JsonTree::Number(seq!['0'], Some(0i64)),
                },
            ]
        } else {
            Seq::empty()
        }),
{
    lemma_usdt_balances_append(coins, seq![coin]);
    assert(coins.push(coin) =~= coins + seq![coin]);
    assert(seq![coin].drop_first() =~= Seq::<JsonTree>::empty());
    if coin_is_usdt(coin) {
        assert(usdt_balances(seq![coin]) =~= seq![field_or_zero(coin, "available_balance"@)]
            + usdt_balances(Seq::<JsonTree>::empty()));
    }
}

/// What an asset reply says of the USDT balance.
#[derive(Debug, Clone, PartialEq)]
pub enum BalanceSelection {
    /// The reply carries an error code; its message.
    Failed(Option<String>),
    /// The reply lists no USDT entry.
    UsdtNotFound,
    /// The available balances of the USDT entries, to be added up.
    Found(Vec<JsonValue>),
}

/// Reads an asset reply: the available balances of its USDT entries (those
/// in `data.list` with `coin_code` `"1"`).
pub fn balance_entries(resp: ApiResponse<JsonValue>) -> (r: BalanceSelection)
    ensures
        !is_success(text_opt(resp.errno)) ==> (r matches BalanceSelection::Failed(m) && text_opt(m)
            == text_opt(resp.msg)),
        is_success(text_opt(resp.errno)) ==> ({
            let bs = usdt_balances(listed(data_tree(resp.data), "list"@));
            if bs.len() == 0 {
                r is UsdtNotFound
            } else {
                r matches BalanceSelection::Found(v) && trees(v@) == bs
            }
        }),
{
    if !resp.is_ok() {
        return BalanceSelection::Failed(resp.msg);
    }
    let list = match resp.data {
        Some(d) => match d.into_field("list") {
            Some(l) => match l.into_array() {
                Some(a) => a,
                None => Vec::new(),
            },
            None => Vec::new(),
        },
        None => Vec::new(),
    };
    let ghost all = trees(list@);
    let mut rest = list;
    let mut found: Vec<JsonValue> = Vec::new();
    assert(all.skip(0) =~= all);
    while rest.len() > 0
        invariant
            trees(rest@) == all.skip(all.len() - rest@.len()),
            rest@.len() <= all.len(),
            usdt_balances(all) == trees(found@) + usdt_balances(trees(rest@)),
        decreases rest.len(),
    {
        let ghost before = rest@;
        let coin = rest.remove(0);
        proof {
            assert(trees(rest@) =~= trees(before).drop_first());
            assert(trees(before)[0] == coin.tree());
            assert(all.skip(all.len() - rest@.len()) =~= all.skip(all.len() - before.len()).drop_first());
            reveal_strlit("1");
        }
        let is_usdt = match coin.get("coin_code") {
            Some(v) => match v.as_str() {
                Some(code) => str_eq(code, "1"),
                None => false,
            },
            None => false,
        };
        if is_usdt {
            let balance = match coin.into_field("available_balance") {
                Some(b) => b,
                None => JsonValue::zero(),
            };
            let ghost prev = found@;
            found.push(balance);
            proof {
                assert(trees(found@) =~= trees(prev) + seq![balance.tree()]);
            }
        }
    }
    assert(usdt_balances(trees(rest@)) =~= Seq::<JsonTree>::empty());
    assert(trees(found@) =~= trees(found@) + Seq::<JsonTree>::empty());
    if found.len() == 0 {
        BalanceSelection::UsdtNotFound
    } else {
        BalanceSelection::Found(found)
    }
}

/// The rows of a k-line reply: its payload where it succeeded, none
/// otherwise.
pub fn kline_rows(resp: ApiResponse<Vec<JsonObject>>) -> (r: Vec<JsonObject>)
    ensures
        is_success(text_opt(resp.errno)) && resp.data is Some ==> r == resp.data->0,
        !(is_success(text_opt(resp.errno)) && resp.data is Some) ==> r@.len() == 0,
{
    if resp.is_ok() {
        match resp.data {
            Some(rows) => rows,
            None => Vec::new(),
        }
    } else {
        Vec::new()
    }
}

/// The first element of `vs` whose field `key` is the string `value`.
pub open spec fn first_with_text(vs: Seq<JsonTree>, key: Seq<char>, value: Seq<char>) -> Option<
    JsonTree,
>
    decreases vs.len(),
{
    if vs.len() == 0 {
        None
    } else if (match tree_get(vs[0], key) {
        Some(v) => tree_as_str(v) == Some(value),
        None => false,
    }) {
        Some(vs[0])
    } else {
        first_with_text(vs.drop_first(), key, value)
    }
}

/// The first element of `vs` whose field `key` is the integer `value`.
pub open spec fn first_with_int(vs: Seq<JsonTree>, key: Seq<char>, value: i64) -> Option<JsonTree>
    decreases vs.len(),
{
    if vs.len() == 0 {
        None
    } else if (match tree_get(vs[0], key) {
        Some(v) => tree_as_i64(v) == Some(value),
        None => false,
    }) {
        Some(vs[0])
    } else {
        first_with_int(vs.drop_first(), key, value)
    }
}

fn take_first_with_text(vs: Vec<JsonValue>, key: &str, value: &str) -> (r: Option<JsonValue>)
    ensures
        match r {
            Some(v) => first_with_text(trees(vs@), key@, value@) == Some(v.tree()),
            None => first_with_text(trees(vs@), key@, value@) is None,
        },
{
    let ghost all = trees(vs@);
    let mut rest = vs;
    assert(all.skip(0) =~= all);
    while rest.len() > 0
        invariant
            trees(rest@) == all.skip(all.len() - rest@.len()),
            rest@.len() <= all.len(),
            first_with_text(all, key@, value@) == first_with_text(trees(rest@), key@, value@),
            all == trees(vs@),
        decreases rest.len(),
    {
        let ghost before = rest@;
        let v = rest.remove(0);
        proof {
            assert(trees(rest@) =~= trees(before).drop_first());
            assert(trees(before)[0] == v.tree());
            assert(all.skip(all.len() - rest@.len()) =~= all.skip(all.len() - before.len()).drop_first());
        }
        let hit = match v.get(key) {
            Some(f) => match f.as_str() {
                Some(t) => str_eq(t, value),
                None => false,
            },
            None => false,
        };
        if hit {
            assert(first_with_text(trees(before), key@, value@) == Some(v.tree()));
            return Some(v);
        }
    }
    None
}

fn take_first_with_int(vs: Vec<JsonValue>, key: &str, value: i64) -> (r: Option<JsonValue>)
    ensures
        match r {
            Some(v) => first_with_int(trees(vs@), key@, value) == Some(v.tree()),
            None => first_with_int(trees(vs@), key@, value) is None,
        },
{
    let ghost all = trees(vs@);
    let mut rest = vs;
    assert(all.skip(0) =~= all);
    while rest.len() > 0
        invariant
            trees(rest@) == all.skip(all.len() - rest@.len()),
            rest@.len() <= all.len(),
            first_with_int(all, key@, value) == first_with_int(trees(rest@), key@, value),
            all == trees(vs@),
        decreases rest.len(),
    {
        let ghost before = rest@;
        let v = rest.remove(0);
        proof {
            assert(trees(rest@) =~= trees(before).drop_first());
            assert(trees(before)[0] == v.tree());
            assert(all.skip(all.len() - rest@.len()) =~= all.skip(all.len() - before.len()).drop_first());
        }
        let hit = match v.get(key) {
            Some(f) => f.as_i64() == Some(value),
            None => false,
        };
        if hit {
            assert(first_with_int(trees(before), key@, value) == Some(v.tree()));
            return Some(v);
        }
    }
    None
}

/// The raw terms of a holding period, as the configuration reply gives them:
/// numbers or numeric strings, zero where a field is missing.
#[derive(Debug, Clone, PartialEq)]
pub struct OrderConfigFields {
    pub return_rate: JsonValue,
    pub min_amount: JsonValue,
    pub max_amount: JsonValue,
}

/// The key of the return rate for a direction: `ask_return_rate` for
/// "higher" (`1`), `bid_return_rate` for any other.
pub open spec fn return_rate_key(order_way: i32) -> Seq<char> {
    if order_way == 1 {
        "ask_return_rate"@
    } else {
        "bid_return_rate"@
    }
}

/// The terms the configuration reply gives a pair and holding period: from
/// `data.data`, the first entry whose `pair_id` is the pair; from its
/// `order_configs`, the first whose `duration` is the holding period.
pub open spec fn selected_order_config(
    data: Option<JsonTree>,
    pair_id: Seq<char>,
    duration: i64,
) -> Option<JsonTree> {
    match first_with_text(listed(data, "data"@), "pair_id"@, pair_id) {
        Some(pair_cfg) => first_with_int(
            array_or_empty(tree_get(pair_cfg, "order_configs"@)),
            "duration"@,
            duration,
        ),
        None => None,
    }
}

fn take_field_or_zero(o: &mut JsonObject, key: &str) -> (r: JsonValue)
    ensures
        r.tree() == field_or_zero(JsonTree::Object(old(o)@), key@),
        forall|k: Seq<char>| k != key@ ==> entries_get(final(o)@, k) == entries_get(old(o)@, k),
{
    match o.remove(key) {
        Some(v) => v,
        None => JsonValue::zero(),
    }
}

/// Reads a configuration reply: the return rate for the direction, the
/// minimum and the maximum amount of the pair's holding period; nothing where
/// the reply failed or lists no such pair or holding period.
pub fn order_config_fields(
    resp: ApiResponse<JsonValue>,
    pair_id: &str,
    duration: i64,
    order_way: i32,
) -> (r: Option<OrderConfigFields>)
    ensures
        !is_success(text_opt(resp.errno)) ==> r is None,
        is_success(text_opt(resp.errno)) ==> match selected_order_config(
            data_tree(resp.data),
            pair_id@,
            duration,
        ) {
            Some(cfg) => r matches Some(f) && f.return_rate.tree() == field_or_zero(
                cfg,
                return_rate_key(order_way),
            ) && f.min_amount.tree() == field_or_zero(cfg, "min_amount"@) && f.max_amount.tree()
                == field_or_zero(cfg, "max_amount"@),
            None => r is None,
        },
{
    if !resp.is_ok() {
        return None;
    }
    let configs = match resp.data {
        Some(d) => match d.into_field("data") {
            Some(l) => match l.into_array() {
                Some(a) => a,
                None => Vec::new(),
            },
            None => Vec::new(),
        },
        None => Vec::new(),
    };
    let pair_cfg = match take_first_with_text(configs, "pair_id", pair_id) {
        Some(c) => c,
        None => {
            return None;
        },
    };
    let order_cfgs = match pair_cfg.into_field("order_configs") {
        Some(l) => match l.into_array() {
            Some(a) => a,
            None => Vec::new(),
        },
        None => Vec::new(),
    };
    let match_cfg = match take_first_with_int(order_cfgs, "duration", duration) {
        Some(c) => c,
        None => {
            return None;
        },
    };
    let ghost cfg_tree = match_cfg.tree();
    let rr_key = if order_way == 1 {
        "ask_return_rate"
    } else {
        "bid_return_rate"
    };
    let mut fields = match match_cfg.into_object() {
        Some(o) => o,
        None => JsonObject::new(),
    };
    let ghost es0 = fields@;
    proof {
        reveal_strlit("ask_return_rate");
        reveal_strlit("bid_return_rate");
        reveal_strlit("min_amount");
        reveal_strlit("max_amount");
        assert("ask_return_rate"@.len() == 15);
        assert("bid_return_rate"@.len() == 15);
        assert("min_amount"@.len() == 10);
        assert("max_amount"@.len() == 10);
        assert(return_rate_key(order_way) != "min_amount"@);
        assert(return_rate_key(order_way) != "max_amount"@);
        assert("min_amount"@ != "max_amount"@) by {
            assert("min_amount"@[1] != "max_amount"@[1]);
        }
        assert(forall|k: Seq<char>| field_or_zero(cfg_tree, k) == field_or_zero(JsonTree::Object(es0), k));
    }
    let return_rate = take_field_or_zero(&mut fields, rr_key);
    let min_amount = take_field_or_zero(&mut fields, "min_amount");
    let max_amount = take_field_or_zero(&mut fields, "max_amount");
    Some(OrderConfigFields { return_rate, min_amount, max_amount })
}

/// The positions in a reply of the primary positions endpoint: the objects
/// in `data.data` where that is an array, else in `data` itself where that
/// is an array; nothing where the reply failed or has neither, in which case
/// the fallback endpoint is asked.
pub fn primary_positions(resp: ApiResponse<JsonValue>) -> (r: Option<Vec<JsonObject>>)
    ensures
        !is_success(text_opt(resp.errno)) || resp.data is None ==> r is None,
        is_success(text_opt(resp.errno)) && resp.data is Some ==> ({
            let d = resp.data->0.tree();
            match tree_get(d, "data"@) {
                Some(inner) if tree_as_array(inner) is Some => r matches Some(v) && v@.map_values(
                    |o: JsonObject| o@,
                ) == objects_of(tree_as_array(inner)->0),
                _ => match tree_as_array(d) {
                    Some(a) => r matches Some(v) && v@.map_values(|o: JsonObject| o@) == objects_of(
                        a,
                    ),
                    None => r is None,
                },
            }
        }),
{
    if !resp.is_ok() {
        return None;
    }
    let data = match resp.data {
        Some(d) => d,
        None => {
            return None;
        },
    };
    let inner_is_array = match data.get("data") {
        Some(inner) => inner.as_array().is_some(),
        None => false,
    };
    if inner_is_array {
        let list = match data.into_field("data") {
            Some(inner) => match inner.into_array() {
                Some(a) => a,
                None => Vec::new(),
            },
            None => Vec::new(),
        };
        return Some(crate::json::objects_in(list));
    }
    match data.into_array() {
        Some(a) => Some(crate::json::objects_in(a)),
        None => None,
    }
}

/// The objects listed in `data.data` of a successful reply; none for a
/// failed one.
pub fn listed_objects(resp: ApiResponse<JsonValue>) -> (r: Vec<JsonObject>)
    ensures
        is_success(text_opt(resp.errno)) ==> r@.map_values(|o: JsonObject| o@) == objects_of(
            listed(data_tree(resp.data), "data"@),
        ),
        !is_success(text_opt(resp.errno)) ==> r@.len() == 0,
{
    if !resp.is_ok() {
        return Vec::new();
    }
    let list = match resp.data {
        Some(d) => match d.into_field("data") {
            Some(l) => match l.into_array() {
                Some(a) => a,
                None => Vec::new(),
            },
            None => Vec::new(),
        },
        None => Vec::new(),
    };
    crate::json::objects_in(list)
}

/// The object a payload is, or an empty one.
pub open spec fn object_or_empty(data: Option<JsonTree>) -> Seq<(Seq<char>, JsonTree)> {
    match data {
        Some(d) => match tree_as_object(d) {
            Some(o) => o,
            None => Seq::empty(),
        },
        None => Seq::empty(),
    }
}

fn payload_object(data: Option<JsonValue>) -> (r: JsonObject)
    ensures
        r@ == object_or_empty(data_tree(data)),
{
    match data {
        Some(d) => match d.into_object() {
            Some(o) => o,
            None => JsonObject::new(),
        },
        None => JsonObject::new(),
    }
}

/// The user information of a reply: its payload object where it succeeded;
/// an empty object otherwise.
pub fn user_info_object(resp: ApiResponse<JsonValue>) -> (r: JsonObject)
    ensures
        is_success(text_opt(resp.errno)) ==> r@ == object_or_empty(data_tree(resp.data)),
        !is_success(text_opt(resp.errno)) ==> r@.len() == 0,
{
    if resp.is_ok() {
        payload_object(resp.data)
    } else {
        JsonObject::new()
    }
}

/// The answer to an order submission: its payload object, whatever the
/// reply's code; an empty object where there is none.
pub fn submitted_order(resp: ApiResponse<JsonValue>) -> (r: JsonObject)
    ensures
        r@ == object_or_empty(data_tree(resp.data)),
{
    payload_object(resp.data)
}

} // verus!
