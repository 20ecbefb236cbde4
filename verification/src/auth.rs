//! The current Codex login as `auth.json` holds it: its tokens, the account
//! hint, and the summary the status view shows.
use vstd::prelude::*;
use crate::json::{JsonModel, JsonObject, JsonValue, Members, model_get};
use crate::text::{string_opt, trim, trim_non_empty_opt, trim_str, trimmed_non_empty};
use crate::workspace::model_str;

verus! {

/// The `tokens` object of an `auth.json` root, or an empty object.
pub open spec fn tokens_model(source: Members) -> Members {
    match model_get(source, "tokens"@) {
        Some(JsonModel::Object(t)) => t,
        _ => Seq::empty(),
    }
}

/// A string member trimmed, or the empty text when it is missing or not a
/// string (`get(key).and_then(Value::as_str).unwrap_or("").trim()`).
pub open spec fn member_text(m: Members, key: Seq<char>) -> Seq<char> {
    match model_str(model_get(m, key)) {
        Some(s) => trim(s),
        None => Seq::empty(),
    }
}

/// The account hint: the trimmed, non-empty `account_id` token member.
pub open spec fn account_hint_model(tokens: Members) -> Option<Seq<char>> {
    trimmed_non_empty(model_str(model_get(tokens, "account_id"@)))
}

/// `a.or(b)`.
pub open spec fn or_else(a: Option<Seq<char>>, b: Option<Seq<char>>) -> Option<Seq<char>> {
    match a {
        Some(x) => Some(x),
        None => b,
    }
}

/// The account ids that the auth core's extractors (`extract_workspace_id`,
/// `extract_chatgpt_account_id`) report for a login's `id_token` and
/// `access_token`.
#[derive(Debug, Clone, PartialEq)]
pub struct TokenAccountIds {
    pub id_token_workspace_id: Option<String>,
    pub access_token_workspace_id: Option<String>,
    pub id_token_chatgpt_account_id: Option<String>,
    pub access_token_chatgpt_account_id: Option<String>,
}

pub struct TokenAccountIdsView {
    pub id_token_workspace_id: Option<Seq<char>>,
    pub access_token_workspace_id: Option<Seq<char>>,
    pub id_token_chatgpt_account_id: Option<Seq<char>>,
    pub access_token_chatgpt_account_id: Option<Seq<char>>,
}

impl View for TokenAccountIds {
    type V = TokenAccountIdsView;

    open spec fn view(&self) -> TokenAccountIdsView {
        TokenAccountIdsView {
            id_token_workspace_id: string_opt(self.id_token_workspace_id),
            access_token_workspace_id: string_opt(self.access_token_workspace_id),
            id_token_chatgpt_account_id: string_opt(self.id_token_chatgpt_account_id),
            access_token_chatgpt_account_id: string_opt(self.access_token_chatgpt_account_id),
        }
    }
}

/// The current workspace: the account hint, else the workspace id of the
/// `id_token`, else that of the `access_token`.
pub open spec fn current_workspace_model(tokens: Members, ids: TokenAccountIdsView) -> Option<Seq<char>> {
    or_else(
        account_hint_model(tokens),
        or_else(ids.id_token_workspace_id, ids.access_token_workspace_id),
    )
}

/// The ChatGPT account id: that of the `id_token`, else that of the
/// `access_token`.
pub open spec fn chatgpt_account_model(ids: TokenAccountIdsView) -> Option<Seq<char>> {
    or_else(ids.id_token_chatgpt_account_id, ids.access_token_chatgpt_account_id)
}

fn or_else_string(a: Option<String>, b: Option<String>) -> (r: Option<String>)
    ensures
        string_opt(r) == or_else(string_opt(a), string_opt(b)),
{
    match a {
        Some(x) => Some(x),
        None => b,
    }
}

fn clone_opt(a: &Option<String>) -> (r: Option<String>)
    ensures
        string_opt(r) == string_opt(*a),
{
    match a {
        Some(x) => Some(x.clone()),
        None => None,
    }
}

/// The `tokens` object of `source`, or an empty object.
pub fn current_codex_tokens(source: &JsonObject) -> (r: JsonObject)
    ensures
        r@ == tokens_model(source@),
{
    match source.get("tokens") {
        Some(v) => match v.as_object() {
            Some(t) => t.duplicate(),
            None => JsonObject::new(),
        },
        None => JsonObject::new(),
    }
}

/// The trimmed, non-empty `account_id` of `tokens`.
pub fn current_codex_account_hint(tokens: &JsonObject) -> (r: Option<String>)
    ensures
        string_opt(r) == account_hint_model(tokens@),
{
    let raw = match tokens.get("account_id") {
        Some(v) => v.as_str(),
        None => None,
    };
    trim_non_empty_opt(raw)
}

/// The trimmed string member `key` of `m`, or the empty text.
pub fn member_str<'a>(m: &'a JsonObject, key: &str) -> (r: &'a str)
    ensures
        r@ == member_text(m@, key@),
{
    proof {
        reveal_strlit("");
    }
    match m.get(key) {
        Some(v) => match v.as_str() {
            Some(s) => trim_str(s),
            None => "",
        },
        None => "",
    }
}

/// The trimmed `id_token` and `access_token` of an `auth.json` root: the
/// tokens whose payloads [`crate::workspace::TokenPayloads`] holds.
pub fn codex_token_texts(source: &JsonObject) -> (r: (String, String))
    ensures
        r.0@ == member_text(tokens_model(source@), "id_token"@),
        r.1@ == member_text(tokens_model(source@), "access_token"@),
{
    let tokens = current_codex_tokens(source);
    let id_token = String::from_str(member_str(&tokens, "id_token"));
    let access_token = String::from_str(member_str(&tokens, "access_token"));
    (id_token, access_token)
}

/// What the status view shows of the current login: the trimmed
/// `auth_mode`, the current workspace id, the ChatGPT account id, the
/// account hint, and the root object itself.
pub open spec fn auth_summary_ok(
    r: (String, Option<String>, Option<String>, Option<String>, JsonObject),
    source: Members,
    ids: TokenAccountIdsView,
) -> bool {
    let tokens = tokens_model(source);
    &&& r.0@ == member_text(source, "auth_mode"@)
    &&& string_opt(r.1) == current_workspace_model(tokens, ids)
    &&& string_opt(r.2) == chatgpt_account_model(ids)
    &&& string_opt(r.3) == account_hint_model(tokens)
    &&& r.4@ == source
}

/// The root object of a parsed `auth.json` (`value`, read from
/// `auth_path`), or `invalid auth file format: <path>` when the root is not
/// an object.
pub fn auth_source<'a>(value: &'a JsonValue, auth_path: &str) -> (r: Result<&'a JsonObject, String>)
    ensures
        match value@ {
            JsonModel::Object(source) => r matches Ok(o) && o@ == source,
            _ => r matches Err(e) && e@ == "invalid auth file format: "@ + auth_path@,
        },
{
    match value.as_object() {
        Some(o) => Ok(o),
        None => {
            let mut e = String::from_str("invalid auth file format: ");
            e.append(auth_path);
            Err(e)
        },
    }
}

/// The summary of a parsed `auth.json` (`value`, read from `auth_path`).
/// Fails with `invalid auth file format: <path>` when the root is not an
/// object.
pub fn current_codex_auth_summary(value: &JsonValue, auth_path: &str, ids: &TokenAccountIds) -> (r: Result<
    (String, Option<String>, Option<String>, Option<String>, JsonObject),
    String,
>)
    ensures
        match value@ {
            JsonModel::Object(source) => r matches Ok(s) && auth_summary_ok(s, source, ids@),
            _ => r matches Err(e) && e@ == "invalid auth file format: "@ + auth_path@,
        },
{
    let source = match auth_source(value, auth_path) {
        Ok(o) => o.duplicate(),
        Err(e) => return Err(e),
    };
    let auth_mode = String::from_str(member_str(&source, "auth_mode"));
    let tokens = current_codex_tokens(&source);
    let account_hint = current_codex_account_hint(&tokens);
    let workspace_id = or_else_string(
        clone_opt(&account_hint),
        or_else_string(clone_opt(&ids.id_token_workspace_id), clone_opt(&ids.access_token_workspace_id)),
    );
    let chatgpt_account_id = or_else_string(
        clone_opt(&ids.id_token_chatgpt_account_id),
        clone_opt(&ids.access_token_chatgpt_account_id),
    );
    Ok((auth_mode, workspace_id, chatgpt_account_id, account_hint, source))
}

/// When `auth.json` has an account hint, the summary's workspace id is that
/// hint, whatever the tokens carry.
pub proof fn law_summary_prefers_account_hint(
    r: (String, Option<String>, Option<String>, Option<String>, JsonObject),
    source: Members,
    ids: TokenAccountIdsView,
)
    requires
        auth_summary_ok(r, source, ids),
        account_hint_model(tokens_model(source)) is Some,
    ensures
        string_opt(r.1) == account_hint_model(tokens_model(source)),
        string_opt(r.1) == string_opt(r.3),
{
}

} // verus!
