use base64::Engine;
use local_codex::auth::{codex_token_texts, current_codex_auth_summary, TokenAccountIds};
use local_codex::import::build_local_codex_import_items;
use local_codex::json::{JsonNumber, JsonObject, JsonValue};
use local_codex::jwt::decode_jwt_payload;
use local_codex::workspace::{current_codex_workspace_options, TokenPayloads};
use serde_json::Value;

fn lib_value(v: &Value) -> JsonValue {
    match v {
        Value::Null => JsonValue::Null,
        Value::Bool(b) => JsonValue::Bool(*b),
        Value::Number(n) => {
            if let Some(i) = n.as_i64() {
                JsonValue::Number(JsonNumber::Int(i))
            } else if let Some(u) = n.as_u64() {
                JsonValue::Number(JsonNumber::UInt(u))
            } else {
                JsonValue::Number(JsonNumber::Other(n.to_string()))
            }
        }
        Value::String(s) => JsonValue::Str(s.clone()),
        Value::Array(items) => JsonValue::Array(items.iter().map(lib_value).collect()),
        Value::Object(map) => {
            let mut o = JsonObject::new();
            for (k, v) in map {
                o.insert(k.clone(), lib_value(v));
            }
            JsonValue::Object(o)
        }
    }
}

fn object(pairs: Vec<(&str, Value)>) -> Value {
    let mut m = serde_json::Map::new();
    for (k, v) in pairs {
        m.insert(k.to_string(), v);
    }
    Value::Object(m)
}

fn text(s: &str) -> Value {
    Value::String(s.to_string())
}

fn jwt(payload: Value) -> String {
    let header = base64::engine::general_purpose::URL_SAFE_NO_PAD.encode(r#"{"alg":"none"}"#);
    let payload = base64::engine::general_purpose::URL_SAFE_NO_PAD
        .encode(serde_json::to_vec(&payload).expect("payload json"));
    format!("{header}.{payload}.sig")
}

fn sample_auth_source() -> JsonObject {
    let org = |id: &str, title: &str, is_default: bool| {
        object(vec![("id", text(id)), ("title", text(title)), ("is_default", Value::Bool(is_default))])
    };
    let id_token = jwt(object(vec![
        ("sub", text("auth0|sample")),
        ("email", text("user@example.com")),
        (
            "https://api.openai.com/auth",
            object(vec![
                ("chatgpt_account_id", text("cgpt-1")),
                (
                    "organizations",
                    Value::Array(vec![org("org-default", "Default Biz", true), org("org-second", "Second Biz", false)]),
                ),
            ]),
        ),
    ]));
    let access_token = jwt(object(vec![
        ("sub", text("auth0|sample")),
        ("https://api.openai.com/auth", object(vec![("chatgpt_account_id", text("cgpt-1"))])),
    ]));
    let source = object(vec![
        ("auth_mode", text("chatgpt")),
        (
            "tokens",
            object(vec![
                ("id_token", text(&id_token)),
                ("access_token", text(&access_token)),
                ("refresh_token", text("rt_123")),
                ("account_id", text("org-second")),
            ]),
        ),
    ]);
    match lib_value(&source) {
        JsonValue::Object(o) => o,
        _ => panic!("auth source"),
    }
}

fn payloads_of(source: &JsonObject) -> TokenPayloads {
    let (id_token, access_token) = codex_token_texts(source);
    let parse = |token: &str| {
        decode_jwt_payload(token)
            .and_then(|bytes| serde_json::from_slice::<Value>(&bytes).ok())
            .map(|v| lib_value(&v))
    };
    TokenPayloads { id_token: parse(&id_token), access_token: parse(&access_token) }
}

fn sample_ids() -> TokenAccountIds {
    TokenAccountIds {
        id_token_workspace_id: None,
        access_token_workspace_id: None,
        id_token_chatgpt_account_id: Some("cgpt-1".to_string()),
        access_token_chatgpt_account_id: Some("cgpt-1".to_string()),
    }
}

#[test]
fn current_codex_auth_summary_prefers_account_hint_workspace() {
    let root = JsonValue::Object(sample_auth_source());
    let (_, workspace_id, _, account_hint, _) =
        current_codex_auth_summary(&root, "/home/user/.codex/auth.json", &sample_ids()).expect("summary");

    assert_eq!(account_hint.as_deref(), Some("org-second"));
    assert_eq!(workspace_id.as_deref(), Some("org-second"));
}

#[test]
fn build_local_codex_import_items_expands_workspace_organizations() {
    let source = sample_auth_source();
    let payloads = payloads_of(&source);
    let options = current_codex_workspace_options(Some("org-second"), &payloads);
    assert_eq!(options.len(), 2);

    let items = build_local_codex_import_items(&source, &payloads, &sample_ids());
    assert_eq!(items.len(), 2);

    let workspaces = items
        .iter()
        .filter_map(|item| item.get("meta"))
        .filter_map(|meta| meta.get("workspace_id"))
        .filter_map(|v| v.as_str())
        .collect::<Vec<_>>();
    assert!(workspaces.contains(&"org-default"));
    assert!(workspaces.contains(&"org-second"));
}
