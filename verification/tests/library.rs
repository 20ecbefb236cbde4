use base64::Engine;
use local_codex::accounts::{read_workspace_accounts, StoredAccount};
use local_codex::auth::{
    auth_source, current_codex_account_hint, current_codex_auth_summary, current_codex_tokens, TokenAccountIds,
};
use local_codex::import::{build_local_codex_import_items, local_codex_import_result};
use local_codex::json::{JsonNumber, JsonObject, JsonValue};
use local_codex::jwt::{decode_jwt_payload, jwt_payload_text};
use local_codex::order::stable_sort;
use local_codex::paths::{auth_file_path, config_file_path, local_codex_dir, state_db_path, HomeEnv};
use local_codex::projects::{config_has_malformed_header, parse_projects_from_config};
use local_codex::switch::{
    find_account, local_codex_auth_document, normalize_account_id, token_for_account, StoredToken,
};
use local_codex::text::{str_lt, trim_non_empty, trim_str};
use local_codex::workspace::{current_codex_workspace_options, LocalCodexWorkspaceOption, TokenPayloads};

fn s(x: &str) -> JsonValue {
    JsonValue::Str(x.to_string())
}

fn obj(pairs: Vec<(&str, JsonValue)>) -> JsonObject {
    let mut o = JsonObject::new();
    for (k, v) in pairs {
        o.insert(k.to_string(), v);
    }
    o
}

fn val(pairs: Vec<(&str, JsonValue)>) -> JsonValue {
    JsonValue::Object(obj(pairs))
}

fn org(id: &str, title: Option<&str>, is_default: Option<bool>) -> JsonValue {
    let mut pairs = vec![("id", s(id))];
    if let Some(t) = title {
        pairs.push(("title", s(t)));
    }
    if let Some(d) = is_default {
        pairs.push(("is_default", JsonValue::Bool(d)));
    }
    val(pairs)
}

fn payload_with_orgs(orgs: Vec<JsonValue>) -> JsonValue {
    val(vec![("https://api.openai.com/auth", val(vec![("organizations", JsonValue::Array(orgs))]))])
}

fn no_ids() -> TokenAccountIds {
    TokenAccountIds {
        id_token_workspace_id: None,
        access_token_workspace_id: None,
        id_token_chatgpt_account_id: None,
        access_token_chatgpt_account_id: None,
    }
}

fn meta_str(item: &JsonValue, key: &str) -> Option<String> {
    item.get("meta").and_then(|m| m.get(key)).and_then(|v| v.as_str()).map(|v| v.to_string())
}

#[test]
fn trim_matches_unicode_whitespace() {
    assert_eq!(trim_str("  a b \t\n"), "a b");
    assert_eq!(trim_str("\u{3000}x\u{00a0}"), "x");
    assert_eq!(trim_str(""), "");
    assert_eq!(trim_non_empty("   "), None);
    assert_eq!(trim_non_empty(" v "), Some("v".to_string()));
}

#[test]
fn string_order_is_code_point_order() {
    assert!(str_lt("a", "b"));
    assert!(str_lt("a", "ab"));
    assert!(!str_lt("b", "ab"));
    assert!(!str_lt("x", "x"));
    assert!(str_lt("Z", "a"));
    assert!(str_lt("é", "😀"));
}

#[test]
fn object_insert_replaces_and_appends() {
    let mut o = obj(vec![("a", s("1")), ("b", s("2"))]);
    o.insert("a".to_string(), s("3"));
    assert_eq!(o.entries.len(), 2);
    assert_eq!(o.get("a"), Some(&s("3")));
    o.insert("c".to_string(), JsonValue::Null);
    assert_eq!(o.entries.len(), 3);
    assert_eq!(o.entries[2].0, "c");
    assert!(o.contains_key("b"));
    assert!(!o.contains_key("z"));
    assert_eq!(o.get("z"), None);
}

#[test]
fn value_accessors() {
    assert_eq!(s("x").as_str(), Some("x"));
    assert_eq!(JsonValue::Null.as_str(), None);
    assert_eq!(JsonValue::Bool(true).as_bool(), Some(true));
    assert_eq!(JsonValue::Number(JsonNumber::Int(-4)).as_i64(), Some(-4));
    assert_eq!(JsonValue::Number(JsonNumber::UInt(7)).as_i64(), Some(7));
    assert_eq!(JsonValue::Number(JsonNumber::UInt(u64::MAX)).as_i64(), None);
    assert_eq!(JsonValue::Number(JsonNumber::Other("1.5".to_string())).as_i64(), None);
    assert_eq!(s("x").get("k"), None);
    let copy = val(vec![("k", JsonValue::Array(vec![s("q")]))]).duplicate();
    assert_eq!(copy, val(vec![("k", JsonValue::Array(vec![s("q")]))]));
}

#[test]
fn jwt_payload_decodes_second_segment() {
    // "e30" is "{}" in unpadded URL-safe base64.
    assert_eq!(jwt_payload_text("hdr.e30.sig"), Some("e30".to_string()));
    assert_eq!(decode_jwt_payload("hdr.e30.sig"), Some(b"{}".to_vec()));
    assert_eq!(decode_jwt_payload("hdr.e30"), Some(b"{}".to_vec()));
    assert_eq!(decode_jwt_payload("no-dots"), None);
    assert_eq!(decode_jwt_payload(""), None);
    assert_eq!(decode_jwt_payload("hdr.e30=.sig"), None);
    assert_eq!(decode_jwt_payload("hdr.!!.sig"), None);
}

#[test]
fn workspace_options_dedupe_and_mark_defaults() {
    let payloads = TokenPayloads {
        id_token: Some(payload_with_orgs(vec![
            org(" w2 ", Some(" Team "), None),
            org("w1", Some("  "), Some(true)),
            org("w2", Some("Other"), Some(false)),
            org("   ", Some("Blank"), None),
            s("not an object"),
        ])),
        access_token: Some(payload_with_orgs(vec![org("w9", None, None)])),
    };
    let opts = current_codex_workspace_options(Some("w2"), &payloads);
    assert_eq!(
        opts,
        vec![
            LocalCodexWorkspaceOption { workspace_id: "w2".to_string(), title: Some("Team".to_string()), is_default: true },
            LocalCodexWorkspaceOption { workspace_id: "w1".to_string(), title: None, is_default: true },
        ]
    );
}

#[test]
fn workspace_options_fall_back_to_access_token() {
    let payloads = TokenPayloads {
        id_token: Some(payload_with_orgs(vec![org("", None, None)])),
        access_token: Some(payload_with_orgs(vec![org("w9", None, None)])),
    };
    let opts = current_codex_workspace_options(None, &payloads);
    assert_eq!(opts.len(), 1);
    assert_eq!(opts[0].workspace_id, "w9");
    assert!(!opts[0].is_default);
    let none = TokenPayloads { id_token: None, access_token: Some(s("x")) };
    assert!(current_codex_workspace_options(None, &none).is_empty());
}

#[test]
fn stable_sort_orders_defaults_then_ids() {
    let opt = |id: &str, d: bool| LocalCodexWorkspaceOption { workspace_id: id.to_string(), title: None, is_default: d };
    let sorted = stable_sort(vec![opt("b", false), opt("c", true), opt("a", false), opt("a", true)]);
    let ids: Vec<(String, bool)> = sorted.iter().map(|o| (o.workspace_id.clone(), o.is_default)).collect();
    assert_eq!(
        ids,
        vec![("a".to_string(), true), ("c".to_string(), true), ("a".to_string(), false), ("b".to_string(), false)]
    );
}

#[test]
fn import_items_without_workspaces_is_the_source() {
    let source = obj(vec![("auth_mode", s("apikey")), ("tokens", s("weird"))]);
    let items = build_local_codex_import_items(&source, &TokenPayloads { id_token: None, access_token: None }, &no_ids());
    assert_eq!(items, vec![JsonValue::Object(source.duplicate())]);
}

#[test]
fn import_items_label_and_meta() {
    let source = obj(vec![
        ("auth_mode", s("chatgpt")),
        ("tokens", val(vec![("account_id", s("  hint-1 "))])),
        ("meta", s("old")),
    ]);
    let mut id_payload = payload_with_orgs(vec![org("w2", Some("Beta"), None), org("w1", None, Some(true))]);
    if let JsonValue::Object(o) = &mut id_payload {
        o.insert("email".to_string(), s("u@x.io"));
    }
    let payloads = TokenPayloads { id_token: Some(id_payload), access_token: None };
    let items = build_local_codex_import_items(&source, &payloads, &no_ids());
    assert_eq!(items.len(), 2);
    // w1 is default, so it comes first.
    assert_eq!(meta_str(&items[0], "workspace_id"), Some("w1".to_string()));
    assert_eq!(meta_str(&items[0], "label"), Some("u@x.io".to_string()));
    assert_eq!(meta_str(&items[0], "group_name"), None);
    assert_eq!(meta_str(&items[1], "label"), Some("u@x.io (Beta)".to_string()));
    assert_eq!(meta_str(&items[1], "group_name"), Some("Beta".to_string()));
    // The account hint stands in for a missing ChatGPT account id.
    assert_eq!(meta_str(&items[1], "chatgpt_account_id"), Some("hint-1".to_string()));
    assert_eq!(items[1].get("auth_mode"), Some(&s("chatgpt")));
    assert_eq!(
        items[1].get("tokens").and_then(|t| t.get("account_id")).and_then(|v| v.as_str()),
        Some("  hint-1 ")
    );
}

#[test]
fn import_items_label_falls_back_to_workspace_id() {
    let source = obj(vec![]);
    let payloads = TokenPayloads { id_token: Some(payload_with_orgs(vec![org("w7", None, None)])), access_token: None };
    let ids = TokenAccountIds {
        id_token_workspace_id: None,
        access_token_workspace_id: None,
        id_token_chatgpt_account_id: None,
        access_token_chatgpt_account_id: Some("cg-a".to_string()),
    };
    let items = build_local_codex_import_items(&source, &payloads, &ids);
    assert_eq!(meta_str(&items[0], "label"), Some("w7".to_string()));
    assert_eq!(meta_str(&items[0], "chatgpt_account_id"), Some("cg-a".to_string()));
    // The item gains an empty tokens object.
    assert_eq!(items[0].get("tokens"), Some(&JsonValue::Object(JsonObject::new())));
}

#[test]
fn import_result_counts() {
    let missing = local_codex_import_result(None);
    assert!(!missing.auth_file_exists);
    assert_eq!((missing.total, missing.created, missing.updated, missing.failed), (0, 0, 0, 0));
    let reply = val(vec![(
        "result",
        val(vec![
            ("total", JsonValue::Number(JsonNumber::Int(3))),
            ("created", JsonValue::Number(JsonNumber::UInt(2))),
            ("updated", s("1")),
            ("failed", JsonValue::Number(JsonNumber::Other("1.0".to_string()))),
        ]),
    )]);
    let r = local_codex_import_result(Some(&reply));
    assert!(r.auth_file_exists);
    assert_eq!((r.total, r.created, r.updated, r.failed), (3, 2, 0, 0));
    let odd = local_codex_import_result(Some(&s("x")));
    assert!(odd.auth_file_exists);
    assert_eq!(odd.total, 0);
}

#[test]
fn auth_summary_reads_tokens() {
    let root = val(vec![
        ("auth_mode", s("  chatgpt ")),
        ("tokens", val(vec![("account_id", s("   "))])),
    ]);
    let ids = TokenAccountIds {
        id_token_workspace_id: None,
        access_token_workspace_id: Some("ws-a".to_string()),
        id_token_chatgpt_account_id: Some("cg-i".to_string()),
        access_token_chatgpt_account_id: Some("cg-a".to_string()),
    };
    let (mode, ws, cg, hint, source) = current_codex_auth_summary(&root, "p", &ids).expect("object");
    assert_eq!(mode, "chatgpt");
    assert_eq!(ws.as_deref(), Some("ws-a"));
    assert_eq!(cg.as_deref(), Some("cg-i"));
    assert_eq!(hint, None);
    assert_eq!(JsonValue::Object(source), root);
}

#[test]
fn auth_summary_rejects_non_object() {
    let err = current_codex_auth_summary(&JsonValue::Array(vec![]), "/h/.codex/auth.json", &no_ids()).unwrap_err();
    assert_eq!(err, "invalid auth file format: /h/.codex/auth.json");
}

#[test]
fn tokens_and_hint() {
    let source = obj(vec![("tokens", val(vec![("account_id", s(" acc "))]))]);
    let tokens = current_codex_tokens(&source);
    assert_eq!(current_codex_account_hint(&tokens), Some("acc".to_string()));
    assert_eq!(current_codex_tokens(&obj(vec![("tokens", s("x"))])), JsonObject::new());
}

fn account(id: &str, label: &str, ws: Option<&str>, cg: Option<&str>, has_token: bool) -> StoredAccount {
    StoredAccount {
        id: id.to_string(),
        label: label.to_string(),
        group_name: None,
        status: "active".to_string(),
        workspace_id: ws.map(|v| v.to_string()),
        chatgpt_account_id: cg.map(|v| v.to_string()),
        has_token,
    }
}

#[test]
fn workspace_accounts_match_and_sort() {
    let accounts = vec![
        account("a3", "Zed", Some("w1"), Some("c2"), true),
        account("a1", "Bob", Some("w1"), Some("c1"), true),
        account("a2", "Amy", Some("w2"), Some("c1"), true),
        account("a0", "Bob", Some("w1"), Some("c1"), true),
        account("a4", "Al", Some("w1"), Some("c1"), false),
    ];
    let (matched, items) = read_workspace_accounts(accounts, Some("w1"), Some("c1"));
    assert_eq!(matched.as_deref(), Some("a1"));
    let order: Vec<(&str, bool)> = items.iter().map(|a| (a.account_id.as_str(), a.is_current)).collect();
    assert_eq!(order, vec![("a0", true), ("a1", true), ("a2", false), ("a3", false)]);
}

#[test]
fn workspace_accounts_match_by_chatgpt_without_workspace() {
    let accounts = vec![account("a1", "x", Some("w1"), Some("c1"), true), account("a2", "y", None, Some("c1"), true)];
    let (matched, items) = read_workspace_accounts(accounts, None, Some("c1"));
    assert_eq!(matched.as_deref(), Some("a1"));
    assert!(items.iter().all(|a| a.is_current));
    let (none, _) = read_workspace_accounts(vec![account("a1", "x", None, None, true)], None, None);
    assert_eq!(none, None);
}

#[test]
fn find_account_and_token() {
    let accounts = vec![account("a1", "x", None, None, true), account("a2", "y", None, None, false)];
    assert_eq!(find_account(accounts.clone(), "a2").unwrap().label, "y");
    assert_eq!(find_account(accounts, "zz").unwrap_err(), "account not found: zz");
    assert_eq!(token_for_account(None, "a9").unwrap_err(), "token not found for account: a9");
    let t = StoredToken { id_token: "i".to_string(), access_token: "a".to_string(), refresh_token: "r".to_string() };
    assert_eq!(token_for_account(Some(t.clone()), "a9").unwrap(), t);
}

#[test]
fn auth_document_for_switch() {
    let existing = val(vec![("OPENAI_API_KEY", s("sk-x")), ("other", JsonValue::Bool(true)), ("auth_mode", s("apikey"))]);
    let a = account("acc", "x", None, Some("cg-1"), true);
    let t = StoredToken { id_token: "i".to_string(), access_token: "a".to_string(), refresh_token: "r".to_string() };
    let doc = JsonValue::Object(local_codex_auth_document(Some(&existing), &a, &t));
    assert_eq!(doc.get("auth_mode"), Some(&s("chatgpt")));
    assert_eq!(doc.get("OPENAI_API_KEY"), Some(&s("sk-x")));
    assert_eq!(doc.get("other"), Some(&JsonValue::Bool(true)));
    let tokens = doc.get("tokens").expect("tokens");
    assert_eq!(tokens.get("id_token"), Some(&s("i")));
    assert_eq!(tokens.get("access_token"), Some(&s("a")));
    assert_eq!(tokens.get("refresh_token"), Some(&s("r")));
    assert_eq!(tokens.get("account_id"), Some(&s("cg-1")));

    let fresh = JsonValue::Object(local_codex_auth_document(None, &account("acc", "x", Some("w"), Some("c"), true), &t));
    assert_eq!(fresh.get("OPENAI_API_KEY"), Some(&JsonValue::Null));
    assert_eq!(fresh.get("tokens").and_then(|t| t.get("account_id")), Some(&s("w")));
    let plain = JsonValue::Object(local_codex_auth_document(Some(&s("not object")), &account("acc", "x", None, None, true), &t));
    assert_eq!(plain.get("tokens").and_then(|t| t.get("account_id")), Some(&s("acc")));
}

#[test]
fn switch_then_summary_reads_the_account() {
    let a = account("acc", "x", Some("ws-9"), None, true);
    let t = StoredToken { id_token: "i".to_string(), access_token: "a".to_string(), refresh_token: "r".to_string() };
    let doc = JsonValue::Object(local_codex_auth_document(None, &a, &t));
    let (mode, ws, _, hint, _) = current_codex_auth_summary(&doc, "p", &no_ids()).unwrap();
    assert_eq!(mode, "chatgpt");
    assert_eq!(hint.as_deref(), Some("ws-9"));
    assert_eq!(ws.as_deref(), Some("ws-9"));
    let (matched, items) = read_workspace_accounts(vec![a], ws.as_deref(), None);
    assert_eq!(matched.as_deref(), Some("acc"));
    assert!(items[0].is_current);
}

#[test]
fn account_id_is_trimmed_and_required() {
    assert_eq!(normalize_account_id("  a-1 ").unwrap(), "a-1");
    assert_eq!(normalize_account_id(" \t ").unwrap_err(), "account_id is required");
}

#[test]
fn codex_dir_prefers_home() {
    let env = HomeEnv {
        home: Some("/home/u".to_string()),
        userprofile: Some("C:\\Users\\u".to_string()),
        homedrive: None,
        homepath: None,
    };
    assert_eq!(local_codex_dir(&env).unwrap(), "/home/u/.codex");
    assert_eq!(auth_file_path(&env).unwrap(), "/home/u/.codex/auth.json");
    assert_eq!(config_file_path(&env).unwrap(), "/home/u/.codex/config.toml");
    assert_eq!(state_db_path(&env).unwrap(), "/home/u/.codex/state_5.sqlite");
    let empty_home = HomeEnv { home: Some(String::new()), userprofile: Some("/p/".to_string()), homedrive: None, homepath: None };
    assert_eq!(local_codex_dir(&empty_home).unwrap(), "/p/.codex");
}

#[test]
fn codex_dir_missing_home() {
    let env = HomeEnv { home: None, userprofile: Some(String::new()), homedrive: Some("C:".to_string()), homepath: None };
    assert_eq!(local_codex_dir(&env).unwrap_err(), "HOME/USERPROFILE is not set");
    assert_eq!(auth_file_path(&env).unwrap_err(), "HOME/USERPROFILE is not set");
    let combined = HomeEnv { home: None, userprofile: None, homedrive: Some("/d".to_string()), homepath: Some("u".to_string()) };
    assert_eq!(local_codex_dir(&combined).unwrap(), "/d/u/.codex");
}

#[test]
fn config_projects_with_trust_levels() {
    let text = "model = \"x\"\n[projects.\"/a\"]\ntrust_level = \"trusted\"\n\n  [projects.\"/b\"]  \r\n trust_levels=  \"\"low\"\"  = x\n[other]\ntrust_level = \"ignored-stays-on-b\"\n";
    let projects = parse_projects_from_config(text, Some("/b"));
    assert_eq!(projects.len(), 2);
    assert_eq!(projects[0].path, "/a");
    assert_eq!(projects[0].trust_level, "trusted");
    assert!(!projects[0].is_current);
    assert_eq!(projects[1].path, "/b");
    assert_eq!(projects[1].trust_level, "ignored-stays-on-b");
    assert!(projects[1].is_current);
}

#[test]
fn config_projects_edge_cases() {
    assert!(parse_projects_from_config("", None).is_empty());
    let dup = parse_projects_from_config("[projects.\"/a\"]\n[projects.\"/a\"]\ntrust_level = \"x\"\n", None);
    assert_eq!(dup.len(), 2);
    assert_eq!(dup[0].trust_level, "x");
    assert_eq!(dup[1].trust_level, "");
    let no_eq = parse_projects_from_config("[projects.\"/c\"]\ntrust_level \"x\"", None);
    assert_eq!(no_eq[0].trust_level, "");
    let empty_path = parse_projects_from_config("[projects.\"\"]", Some(""));
    assert_eq!(empty_path[0].path, "");
    assert!(empty_path[0].is_current);
}

#[test]
fn config_malformed_header_detected() {
    assert!(config_has_malformed_header("a\n [projects.\"]\n"));
    assert!(!config_has_malformed_header("[projects.\"\"]\n[projects.\"/x\"]"));
    assert!(!config_has_malformed_header(""));
}

#[test]
fn current_workspace_only_adds_default_marks() {
    let payloads = TokenPayloads {
        id_token: Some(payload_with_orgs(vec![
            org("w3", Some("Gamma"), None),
            org("w1", None, Some(true)),
            org("w2", Some("Beta"), Some(false)),
        ])),
        access_token: None,
    };
    let without = current_codex_workspace_options(None, &payloads);
    let with = current_codex_workspace_options(Some("w2"), &payloads);
    assert_eq!(with.len(), without.len());
    for (a, b) in with.iter().zip(without.iter()) {
        assert_eq!(a.workspace_id, b.workspace_id);
        assert_eq!(a.title, b.title);
        assert_eq!(a.is_default, b.is_default || b.workspace_id == "w2");
    }
    let defaults: Vec<bool> = with.iter().map(|o| o.is_default).collect();
    assert_eq!(defaults, vec![false, true, true]);
}

#[test]
fn import_items_name_each_workspace_once() {
    let source = obj(vec![("auth_mode", s("chatgpt"))]);
    let payloads = TokenPayloads {
        id_token: Some(payload_with_orgs(vec![
            org("w2", None, None),
            org(" w1", None, None),
            org("w2 ", Some("dup"), Some(true)),
            org("w3", None, Some(true)),
        ])),
        access_token: None,
    };
    let items = build_local_codex_import_items(&source, &payloads, &no_ids());
    let ids: Vec<Option<String>> = items.iter().map(|i| meta_str(i, "workspace_id")).collect();
    // w3 is default, then the others by id; w2 occurs once.
    assert_eq!(ids, vec![Some("w3".to_string()), Some("w1".to_string()), Some("w2".to_string())]);
}

#[test]
fn codex_dir_from_drive_and_path() {
    let env = HomeEnv {
        home: None,
        userprofile: None,
        homedrive: Some("/mnt".to_string()),
        homepath: Some("/users/u".to_string()),
    };
    // On Unix an absolute HOMEPATH replaces the drive.
    assert_eq!(local_codex_dir(&env).unwrap(), "/users/u/.codex");
    assert_eq!(state_db_path(&env).unwrap(), "/users/u/.codex/state_5.sqlite");
}

#[test]
fn payload_round_trips_through_encoding() {
    for len in 0..7usize {
        let bytes: Vec<u8> = (0..len).map(|i| (i * 97 + 251) as u8).collect();
        let token = format!("head.{}.sig", base64::engine::general_purpose::URL_SAFE_NO_PAD.encode(&bytes));
        assert_eq!(decode_jwt_payload(&token), Some(bytes));
    }
    // A padded segment is refused by the unpadded engine.
    assert_eq!(decode_jwt_payload("h.YQ==.s"), None);
}

#[test]
fn auth_source_requires_an_object() {
    let root = val(vec![("auth_mode", s("chatgpt"))]);
    assert_eq!(auth_source(&root, "/p/auth.json").unwrap().get("auth_mode"), Some(&s("chatgpt")));
    assert_eq!(auth_source(&s("x"), "/p/auth.json").unwrap_err(), "invalid auth file format: /p/auth.json");
}
