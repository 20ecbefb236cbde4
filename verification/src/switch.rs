//! Making a stored account the current Codex login: choosing the account and
//! its token, and the `auth.json` document that is written for it.
use vstd::prelude::*;
use crate::accounts::{StoredAccount, StoredAccountView, is_current_account};
use crate::auth::{account_hint_model, auth_summary_ok, chatgpt_account_model, tokens_model, TokenAccountIdsView};
use crate::json::{JsonModel, JsonObject, JsonValue, Members, find_key, keys_unique, law_get_after_insert, law_insert_keeps_keys_unique, lemma_find_key, model_get, model_insert};
use crate::text::{chars_of, str_eq, string_opt, trim, trim_str};

verus! {

/// The tokens that storage holds for an account.
#[derive(Debug, Clone, PartialEq)]
pub struct StoredToken {
    pub id_token: String,
    pub access_token: String,
    pub refresh_token: String,
}

pub struct StoredTokenView {
    pub id_token: Seq<char>,
    pub access_token: Seq<char>,
    pub refresh_token: Seq<char>,
}

impl View for StoredToken {
    type V = StoredTokenView;

    open spec fn view(&self) -> StoredTokenView {
        StoredTokenView {
            id_token: self.id_token@,
            access_token: self.access_token@,
            refresh_token: self.refresh_token@,
        }
    }
}

/// The account id written into `tokens.account_id`: the account's
/// workspace id, else its ChatGPT account id, else its own id.
pub open spec fn login_account_id(a: StoredAccountView) -> Seq<char> {
    match a.workspace_id {
        Some(w) => w,
        None => match a.chatgpt_account_id {
            Some(c) => c,
            None => a.id,
        },
    }
}

/// The `tokens` object written for `account` with `token`.
pub open spec fn login_tokens(a: StoredAccountView, t: StoredTokenView) -> Members {
    let m0 = model_insert(Seq::empty(), "id_token"@, JsonModel::Str(t.id_token));
    let m1 = model_insert(m0, "access_token"@, JsonModel::Str(t.access_token));
    let m2 = model_insert(m1, "refresh_token"@, JsonModel::Str(t.refresh_token));
    model_insert(m2, "account_id"@, JsonModel::Str(login_account_id(a)))
}

/// The root object of the current `auth.json`: its members when it is an
/// object, else none.
pub open spec fn existing_root(existing: Option<JsonModel>) -> Members {
    match existing {
        Some(JsonModel::Object(m)) => m,
        _ => Seq::empty(),
    }
}

/// The `auth.json` root written to make `a` the current login: the existing
/// root with `auth_mode` set to `"chatgpt"`, `OPENAI_API_KEY` set to `null`
/// when absent, and `tokens` replaced.
pub open spec fn auth_document(existing: Option<JsonModel>, a: StoredAccountView, t: StoredTokenView) -> Members {
    let r1 = model_insert(existing_root(existing), "auth_mode"@, JsonModel::Str("chatgpt"@));
    let r2 = if find_key(r1, "OPENAI_API_KEY"@) is Some {
        r1
    } else {
        model_insert(r1, "OPENAI_API_KEY"@, JsonModel::Null)
    };
    model_insert(r2, "tokens"@, JsonModel::Object(login_tokens(a, t)))
}

/// `accounts[i]` is the first account with id `id`.
pub open spec fn first_with_id(accounts: Seq<StoredAccount>, id: Seq<char>, i: int) -> bool {
    &&& 0 <= i < accounts.len()
    &&& accounts[i].id@ == id
    &&& forall|k: int| 0 <= k < i ==> accounts[k].id@ != id
}

/// The account with id `account_id` (the first, should two share it);
/// `account not found: <id>` when there is none.
pub fn find_account(accounts: Vec<StoredAccount>, account_id: &str) -> (r: Result<StoredAccount, String>)
    ensures
        match r {
            Ok(a) => exists|i: int| #[trigger] first_with_id(accounts@, account_id@, i) && accounts@[i] == a,
            Err(e) => e@ == "account not found: "@ + account_id@ && forall|k: int|
                0 <= k < accounts@.len() ==> accounts@[k].id@ != account_id@,
        },
{
    let ghost all = accounts@;
    let total: usize = accounts.len();
    let mut rest = accounts;
    let mut n: usize = 0;
    while rest.len() > 0
        invariant
            rest@ == all.skip(n as int),
            n + rest@.len() == all.len(),
            all.len() == total,
            all == accounts@,
            forall|k: int| 0 <= k < n ==> all[k].id@ != account_id@,
        decreases rest.len(),
    {
        let candidate = rest.remove(0);
        proof {
            assert(candidate == all[n as int]);
            assert(rest@ =~= all.skip(n + 1));
        }
        if str_eq(candidate.id.as_str(), account_id) {
            proof {
                assert(first_with_id(all, account_id@, n as int));
            }
            return Ok(candidate);
        }
        n = n + 1;
    }
    let mut e = String::from_str("account not found: ");
    e.append(account_id);
    Err(e)
}

/// The account's token; `token not found for account: <id>` when storage
/// holds none.
pub fn token_for_account(token: Option<StoredToken>, account_id: &str) -> (r: Result<StoredToken, String>)
    ensures
        match token {
            Some(t) => r == Ok::<StoredToken, String>(t),
            None => r matches Err(e) && e@ == "token not found for account: "@ + account_id@,
        },
{
    match token {
        Some(t) => Ok(t),
        None => {
            let mut e = String::from_str("token not found for account: ");
            e.append(account_id);
            Err(e)
        },
    }
}

/// The `auth.json` root that makes `account` the current login, built on
/// the current file's parsed content (`None` when there is no file).
pub fn local_codex_auth_document(
    existing: Option<&JsonValue>,
    account: &StoredAccount,
    token: &StoredToken,
) -> (r: JsonObject)
    ensures
        r@ == auth_document(
            match existing {
                Some(v) => Some(v@),
                None => None,
            },
            account@,
            token@,
        ),
{
    let mut root = match existing {
        Some(v) => match v.as_object() {
            Some(o) => o.duplicate(),
            None => JsonObject::new(),
        },
        None => JsonObject::new(),
    };
    root.insert(String::from_str("auth_mode"), JsonValue::Str(String::from_str("chatgpt")));
    if !root.contains_key("OPENAI_API_KEY") {
        root.insert(String::from_str("OPENAI_API_KEY"), JsonValue::Null);
    }
    let mut tokens = JsonObject::new();
    tokens.insert(String::from_str("id_token"), JsonValue::Str(token.id_token.clone()));
    tokens.insert(String::from_str("access_token"), JsonValue::Str(token.access_token.clone()));
    tokens.insert(String::from_str("refresh_token"), JsonValue::Str(token.refresh_token.clone()));
    let account_id = match &account.workspace_id {
        Some(w) => w.clone(),
        None => match &account.chatgpt_account_id {
            Some(c) => c.clone(),
            None => account.id.clone(),
        },
    };
    tokens.insert(String::from_str("account_id"), JsonValue::Str(account_id));
    root.insert(String::from_str("tokens"), JsonValue::Object(tokens));
    root
}

/// The trimmed account id of a switch request; `account_id is required`
/// when it is blank.
pub fn normalize_account_id(account_id: &str) -> (r: Result<String, String>)
    ensures
        match r {
            Ok(s) => s@ == trim(account_id@) && s@.len() > 0,
            Err(e) => e@ == "account_id is required"@ && trim(account_id@).len() == 0,
        },
{
    let t = trim_str(account_id);
    if chars_of(t).len() == 0 {
        return Err(String::from_str("account_id is required"));
    }
    Ok(String::from_str(t))
}


proof fn lemma_key_literals()
    ensures
        "auth_mode"@ != "OPENAI_API_KEY"@,
        "auth_mode"@ != "tokens"@,
        "OPENAI_API_KEY"@ != "tokens"@,
        "account_id"@ != "id_token"@,
        "account_id"@ != "access_token"@,
        "account_id"@ != "refresh_token"@,
{
    reveal_strlit("auth_mode");
    reveal_strlit("OPENAI_API_KEY");
    reveal_strlit("tokens");
    reveal_strlit("account_id");
    reveal_strlit("id_token");
    reveal_strlit("access_token");
    reveal_strlit("refresh_token");
    assert("auth_mode"@[0] != "OPENAI_API_KEY"@[0]);
    assert("auth_mode"@[0] != "tokens"@[0]);
    assert("OPENAI_API_KEY"@[0] != "tokens"@[0]);
    assert("account_id"@.len() != "id_token"@.len());
    assert("account_id"@[3] != "access_token"@[3]);
    assert("account_id"@[0] != "refresh_token"@[0]);
}

/// The document written for a switch sets `auth_mode` to `"chatgpt"` and
/// `tokens` to the account's tokens, keeps an existing `OPENAI_API_KEY`
/// (else sets it to `null`), keeps every other member, and keeps the keys
/// distinct.
pub proof fn law_auth_document_members(
    existing: Option<JsonModel>,
    a: StoredAccountView,
    t: StoredTokenView,
    key: Seq<char>,
)
    ensures
        model_get(auth_document(existing, a, t), "auth_mode"@) == Some(JsonModel::Str("chatgpt"@)),
        model_get(auth_document(existing, a, t), "tokens"@) == Some(JsonModel::Object(login_tokens(a, t))),
        model_get(auth_document(existing, a, t), "OPENAI_API_KEY"@) == (match model_get(
            existing_root(existing),
            "OPENAI_API_KEY"@,
        ) {
            Some(v) => Some(v),
            None => Some(JsonModel::Null),
        }),
        key != "auth_mode"@ && key != "tokens"@ && key != "OPENAI_API_KEY"@ ==> model_get(
            auth_document(existing, a, t),
            key,
        ) == model_get(existing_root(existing), key),
        keys_unique(existing_root(existing)) ==> keys_unique(auth_document(existing, a, t)),
{
    lemma_key_literals();
    let root = existing_root(existing);
    let r1 = model_insert(root, "auth_mode"@, JsonModel::Str("chatgpt"@));
    law_get_after_insert(root, "auth_mode"@, JsonModel::Str("chatgpt"@), key);
    law_get_after_insert(root, "auth_mode"@, JsonModel::Str("chatgpt"@), "OPENAI_API_KEY"@);
    lemma_find_key(r1, "OPENAI_API_KEY"@);
    lemma_find_key(root, "OPENAI_API_KEY"@);
    let r2 = if find_key(r1, "OPENAI_API_KEY"@) is Some {
        r1
    } else {
        law_get_after_insert(r1, "OPENAI_API_KEY"@, JsonModel::Null, key);
        law_get_after_insert(r1, "OPENAI_API_KEY"@, JsonModel::Null, "auth_mode"@);
        model_insert(r1, "OPENAI_API_KEY"@, JsonModel::Null)
    };
    let tokens = JsonModel::Object(login_tokens(a, t));
    law_get_after_insert(r2, "tokens"@, tokens, key);
    law_get_after_insert(r2, "tokens"@, tokens, "auth_mode"@);
    law_get_after_insert(r2, "tokens"@, tokens, "OPENAI_API_KEY"@);
    if keys_unique(root) {
        law_insert_keeps_keys_unique(root, "auth_mode"@, JsonModel::Str("chatgpt"@));
        if find_key(r1, "OPENAI_API_KEY"@) is None {
            law_insert_keeps_keys_unique(r1, "OPENAI_API_KEY"@, JsonModel::Null);
        }
        law_insert_keeps_keys_unique(r2, "tokens"@, tokens);
    }
}

/// Reading back the document written for account `a` gives `a`'s
/// `login_account_id` as the account hint and as the current workspace,
/// when that id is already trimmed and not empty.
pub proof fn law_switch_then_summary(
    existing: Option<JsonModel>,
    a: StoredAccountView,
    t: StoredTokenView,
    ids: TokenAccountIdsView,
    summary: (String, Option<String>, Option<String>, Option<String>, JsonObject),
)
    requires
        auth_summary_ok(summary, auth_document(existing, a, t), ids),
        trim(login_account_id(a)) == login_account_id(a),
        login_account_id(a).len() > 0,
    ensures
        string_opt(summary.3) == Some(login_account_id(a)),
        string_opt(summary.1) == Some(login_account_id(a)),
{
    law_auth_document_members(existing, a, t, "tokens"@);
    lemma_key_literals();
    let id = login_account_id(a);
    let m0 = model_insert(Seq::empty(), "id_token"@, JsonModel::Str(t.id_token));
    let m1 = model_insert(m0, "access_token"@, JsonModel::Str(t.access_token));
    let m2 = model_insert(m1, "refresh_token"@, JsonModel::Str(t.refresh_token));
    law_get_after_insert(m2, "account_id"@, JsonModel::Str(id), "account_id"@);
    assert(tokens_model(auth_document(existing, a, t)) == login_tokens(a, t));
    assert(account_hint_model(login_tokens(a, t)) == Some(id));
}

/// After switching to an account with a workspace id, listing the stored
/// accounts against the login read back marks that account current, unless
/// the written tokens carry a different ChatGPT account id.
pub proof fn law_switched_account_is_current(
    existing: Option<JsonModel>,
    a: StoredAccountView,
    t: StoredTokenView,
    ids: TokenAccountIdsView,
    summary: (String, Option<String>, Option<String>, Option<String>, JsonObject),
)
    requires
        auth_summary_ok(summary, auth_document(existing, a, t), ids),
        a.workspace_id is Some,
        trim(login_account_id(a)) == login_account_id(a),
        login_account_id(a).len() > 0,
        chatgpt_account_model(ids) is None || chatgpt_account_model(ids) == a.chatgpt_account_id,
    ensures
        is_current_account(string_opt(summary.1), string_opt(summary.2), a.workspace_id, a.chatgpt_account_id),
{
    law_switch_then_summary(existing, a, t, ids, summary);
}

} // verus!
