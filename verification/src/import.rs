//! The account-import request for the current Codex login: one item per
//! workspace the login can act in, each the `auth.json` root with a `meta`
//! object naming the workspace; and the counts the import reports back.
use vstd::prelude::*;
use crate::auth::{
    TokenAccountIds, TokenAccountIdsView, account_hint_model, current_codex_account_hint,
    current_codex_tokens, current_workspace_model, or_else, tokens_model,
};
use crate::json::{JsonModel, JsonObject, JsonValue, Members, NumberModel, law_get_after_insert, model_get, model_insert};
use crate::order::{is_stable_sort_of, stable_sort, views};
use crate::text::{string_opt, trimmed_non_empty};
use crate::workspace::{
    LocalCodexWorkspaceOption, TokenPayloads, WorkspaceOptionView, current_codex_workspace_options,
    law_options_distinct, model_str, payload_model, str_member, value_get, workspace_options,
};

verus! {

/// The email claim of the `id_token` payload.
pub open spec fn email_model(id_payload: Option<JsonModel>) -> Option<Seq<char>> {
    match id_payload {
        Some(p) => model_str(value_get(p, "email"@)),
        None => None,
    }
}

/// The ChatGPT account id an import item carries: that of the `id_token`,
/// else that of the `access_token`, else the account hint.
pub open spec fn import_chatgpt_model(tokens: Members, ids: TokenAccountIdsView) -> Option<Seq<char>> {
    or_else(
        ids.id_token_chatgpt_account_id,
        or_else(ids.access_token_chatgpt_account_id, account_hint_model(tokens)),
    )
}

/// The label of an import item: `"<email> (<title>)"`, the email, the
/// title, or the workspace id, as far as they are known.
pub open spec fn import_label(email: Option<Seq<char>>, w: WorkspaceOptionView) -> Seq<char> {
    match (email, w.title) {
        (Some(e), Some(t)) => e + " ("@ + t + ")"@,
        (Some(e), None) => e,
        (None, Some(t)) => t,
        (None, None) => w.workspace_id,
    }
}

/// The `meta` object of the import item for workspace `w`.
pub open spec fn import_meta(email: Option<Seq<char>>, chatgpt: Option<Seq<char>>, w: WorkspaceOptionView) -> Members {
    let m0 = model_insert(Seq::empty(), "label"@, JsonModel::Str(import_label(email, w)));
    let m1 = model_insert(m0, "workspace_id"@, JsonModel::Str(w.workspace_id));
    let m2 = match chatgpt {
        Some(c) => model_insert(m1, "chatgpt_account_id"@, JsonModel::Str(c)),
        None => m1,
    };
    match w.title {
        Some(t) => model_insert(m2, "group_name"@, JsonModel::Str(t)),
        None => m2,
    }
}

/// The import item for workspace `w`: the root with its `tokens` object
/// (empty when it had none) and the item's `meta` object.
pub open spec fn import_item(
    source: Members,
    email: Option<Seq<char>>,
    chatgpt: Option<Seq<char>>,
    w: WorkspaceOptionView,
) -> JsonModel {
    let with_tokens = model_insert(source, "tokens"@, JsonModel::Object(tokens_model(source)));
    JsonModel::Object(model_insert(with_tokens, "meta"@, JsonModel::Object(import_meta(email, chatgpt, w))))
}

/// The workspace options of the login in `source`.
pub open spec fn import_options(
    source: Members,
    id_payload: Option<JsonModel>,
    access_payload: Option<JsonModel>,
    ids: TokenAccountIdsView,
) -> Seq<WorkspaceOptionView> {
    workspace_options(id_payload, access_payload, current_workspace_model(tokens_model(source), ids))
}

/// `items` is the import request for the login in `source`: the root alone
/// when the login lists no workspace; otherwise one item per workspace, the
/// workspaces in stable order (default ones first, then by id).
pub open spec fn import_items_spec(
    items: Seq<JsonModel>,
    source: Members,
    id_payload: Option<JsonModel>,
    access_payload: Option<JsonModel>,
    ids: TokenAccountIdsView,
) -> bool {
    let opts = import_options(source, id_payload, access_payload, ids);
    let email = email_model(id_payload);
    let chatgpt = import_chatgpt_model(tokens_model(source), ids);
    if opts.len() == 0 {
        items == seq![JsonModel::Object(source)]
    } else {
        exists|order: Seq<WorkspaceOptionView>|
            #[trigger] is_stable_sort_of::<LocalCodexWorkspaceOption>(order, opts) && items
                == order.map_values(|w: WorkspaceOptionView| import_item(source, email, chatgpt, w))
    }
}

fn clone_opt(a: &Option<String>) -> (r: Option<String>)
    ensures
        string_opt(r) == string_opt(*a),
{
    match a {
        Some(x) => Some(x.clone()),
        None => None,
    }
}

fn label_for(email: &Option<String>, w: &LocalCodexWorkspaceOption) -> (r: String)
    ensures
        r@ == import_label(string_opt(*email), w@),
{
    match (email, &w.title) {
        (Some(e), Some(t)) => {
            let mut s = e.clone();
            s.append(" (");
            s.append(t.as_str());
            s.append(")");
            s
        },
        (Some(e), None) => e.clone(),
        (None, Some(t)) => t.clone(),
        (None, None) => w.workspace_id.clone(),
    }
}

fn item_for(
    source: &JsonObject,
    tokens: &JsonObject,
    email: &Option<String>,
    chatgpt: &Option<String>,
    w: &LocalCodexWorkspaceOption,
) -> (r: JsonValue)
    requires
        tokens@ == tokens_model(source@),
    ensures
        r@ == import_item(source@, string_opt(*email), string_opt(*chatgpt), w@),
{
    let mut item = source.duplicate();
    item.insert(String::from_str("tokens"), JsonValue::Object(tokens.duplicate()));
    let mut meta = JsonObject::new();
    meta.insert(String::from_str("label"), JsonValue::Str(label_for(email, w)));
    meta.insert(String::from_str("workspace_id"), JsonValue::Str(w.workspace_id.clone()));
    match chatgpt {
        Some(c) => meta.insert(String::from_str("chatgpt_account_id"), JsonValue::Str(c.clone())),
        None => {},
    }
    match &w.title {
        Some(t) => meta.insert(String::from_str("group_name"), JsonValue::Str(t.clone())),
        None => {},
    }
    item.insert(String::from_str("meta"), JsonValue::Object(meta));
    JsonValue::Object(item)
}

/// The account-import items for the login whose `auth.json` root is
/// `source`, given its tokens' decoded payloads and the account ids its
/// tokens carry.
pub fn build_local_codex_import_items(
    source: &JsonObject,
    payloads: &TokenPayloads,
    ids: &TokenAccountIds,
) -> (r: Vec<JsonValue>)
    ensures
        import_items_spec(
            views(r@),
            source@,
            payload_model(payloads.id_token),
            payload_model(payloads.access_token),
            ids@,
        ),
{
    let tokens = current_codex_tokens(source);
    let account_hint = current_codex_account_hint(&tokens);
    let chatgpt_account_id = match clone_opt(&ids.id_token_chatgpt_account_id) {
        Some(c) => Some(c),
        None => match clone_opt(&ids.access_token_chatgpt_account_id) {
            Some(c) => Some(c),
            None => clone_opt(&account_hint),
        },
    };
    let email: Option<String> = match &payloads.id_token {
        Some(p) => match str_member(p, "email") {
            Some(e) => Some(String::from_str(e)),
            None => None,
        },
        None => None,
    };
    let current_workspace_id = match clone_opt(&account_hint) {
        Some(h) => Some(h),
        None => match clone_opt(&ids.id_token_workspace_id) {
            Some(w) => Some(w),
            None => clone_opt(&ids.access_token_workspace_id),
        },
    };
    let current_ref: Option<&str> = match &current_workspace_id {
        Some(w) => Some(w.as_str()),
        None => None,
    };
    let options = current_codex_workspace_options(current_ref, payloads);
    if options.len() == 0 {
        let mut single: Vec<JsonValue> = Vec::new();
        single.push(JsonValue::Object(source.duplicate()));
        proof {
            assert(views(single@) =~= seq![JsonModel::Object(source@)]);
        }
        return single;
    }
    let ghost opts = views(options@);
    let sorted = stable_sort(options);
    let ghost order = views(sorted@);
    let ghost email_v = string_opt(email);
    let ghost chatgpt_v = string_opt(chatgpt_account_id);
    let mut items: Vec<JsonValue> = Vec::new();
    let mut i: usize = 0;
    while i < sorted.len()
        invariant
            0 <= i <= sorted.len(),
            order == views(sorted@),
            tokens@ == tokens_model(source@),
            email_v == string_opt(email),
            chatgpt_v == string_opt(chatgpt_account_id),
            items@.len() == i,
            forall|k: int|
                0 <= k < i ==> (#[trigger] items@[k])@ == import_item(source@, email_v, chatgpt_v, order[k]),
        decreases sorted.len() - i,
    {
        let item = item_for(source, &tokens, &email, &chatgpt_account_id, &sorted[i]);
        items.push(item);
        i = i + 1;
    }
    proof {
        let f = |w: WorkspaceOptionView| import_item(source@, email_v, chatgpt_v, w);
        assert(views(items@) =~= order.map_values(f));
        assert(is_stable_sort_of::<LocalCodexWorkspaceOption>(order, opts));
    }
    items
}


/// An import item is the `auth.json` root with only `tokens` (set to the
/// root's tokens object, empty when it had none) and `meta` changed.
pub proof fn law_import_item_members(
    source: Members,
    email: Option<Seq<char>>,
    chatgpt: Option<Seq<char>>,
    w: WorkspaceOptionView,
    key: Seq<char>,
)
    ensures
        value_get(import_item(source, email, chatgpt, w), "tokens"@) == Some(JsonModel::Object(tokens_model(source))),
        key != "tokens"@ && key != "meta"@ ==> value_get(import_item(source, email, chatgpt, w), key) == model_get(source, key),
{
    reveal_strlit("tokens");
    reveal_strlit("meta");
    assert("tokens"@ != "meta"@) by {
        assert("tokens"@.len() != "meta"@.len());
    }
    let tokens = JsonModel::Object(tokens_model(source));
    let with_tokens = model_insert(source, "tokens"@, tokens);
    let meta = JsonModel::Object(import_meta(email, chatgpt, w));
    law_get_after_insert(source, "tokens"@, tokens, key);
    law_get_after_insert(source, "tokens"@, tokens, "tokens"@);
    law_get_after_insert(with_tokens, "meta"@, meta, key);
    law_get_after_insert(with_tokens, "meta"@, meta, "tokens"@);
}

/// The `workspace_id` named by an import item's `meta` object.
pub open spec fn meta_workspace_id(item: JsonModel) -> Option<Seq<char>> {
    match value_get(item, "meta"@) {
        Some(meta) => model_str(value_get(meta, "workspace_id"@)),
        None => None,
    }
}

proof fn lemma_item_names_workspace(
    source: Members,
    email: Option<Seq<char>>,
    chatgpt: Option<Seq<char>>,
    w: WorkspaceOptionView,
)
    ensures
        meta_workspace_id(import_item(source, email, chatgpt, w)) == Some(w.workspace_id),
{
    reveal_strlit("workspace_id");
    reveal_strlit("chatgpt_account_id");
    reveal_strlit("group_name");
    reveal_strlit("label");
    let with_tokens = model_insert(source, "tokens"@, JsonModel::Object(tokens_model(source)));
    let meta = import_meta(email, chatgpt, w);
    law_get_after_insert(with_tokens, "meta"@, JsonModel::Object(meta), "meta"@);
    let m0 = model_insert(Seq::empty(), "label"@, JsonModel::Str(import_label(email, w)));
    let m1 = model_insert(m0, "workspace_id"@, JsonModel::Str(w.workspace_id));
    law_get_after_insert(m0, "workspace_id"@, JsonModel::Str(w.workspace_id), "workspace_id"@);
    assert("chatgpt_account_id"@ != "workspace_id"@) by {
        assert("chatgpt_account_id"@.len() != "workspace_id"@.len());
    }
    assert("group_name"@ != "workspace_id"@) by {
        assert("group_name"@[0] != "workspace_id"@[0]);
    }
    let m2 = match chatgpt {
        Some(c) => {
            law_get_after_insert(m1, "chatgpt_account_id"@, JsonModel::Str(c), "workspace_id"@);
            model_insert(m1, "chatgpt_account_id"@, JsonModel::Str(c))
        },
        None => m1,
    };
    match w.title {
        Some(t) => {
            law_get_after_insert(m2, "group_name"@, JsonModel::Str(t), "workspace_id"@);
        },
        None => {},
    }
}

/// The import request has one item per workspace option (one item when
/// there is none), and the items' `meta.workspace_id` values are exactly
/// the options' workspace ids.
pub proof fn law_import_items_cover_workspaces(
    items: Seq<JsonModel>,
    source: Members,
    id_payload: Option<JsonModel>,
    access_payload: Option<JsonModel>,
    ids: TokenAccountIdsView,
)
    requires
        import_items_spec(items, source, id_payload, access_payload, ids),
    ensures
        ({
            let opts = import_options(source, id_payload, access_payload, ids);
            &&& items.len() == if opts.len() == 0 {
                1
            } else {
                opts.len()
            }
            &&& forall|j: int|
                0 <= j < opts.len() ==> exists|i: int|
                    0 <= i < items.len() && #[trigger] meta_workspace_id(items[i]) == Some(
                        (#[trigger] opts[j]).workspace_id,
                    )
            &&& opts.len() > 0 ==> forall|i: int|
                0 <= i < items.len() ==> exists|j: int|
                    0 <= j < opts.len() && #[trigger] meta_workspace_id(items[i]) == Some(
                        (#[trigger] opts[j]).workspace_id,
                    )
        }),
{
    let opts = import_options(source, id_payload, access_payload, ids);
    let email = email_model(id_payload);
    let chatgpt = import_chatgpt_model(tokens_model(source), ids);
    if opts.len() > 0 {
        let order = choose|order: Seq<WorkspaceOptionView>|
            #[trigger] is_stable_sort_of::<LocalCodexWorkspaceOption>(order, opts) && items
                == order.map_values(|w: WorkspaceOptionView| import_item(source, email, chatgpt, w));
        vstd::seq_lib::to_multiset_len(order);
        vstd::seq_lib::to_multiset_len(opts);
        assert forall|j: int| 0 <= j < opts.len() implies exists|i: int|
            0 <= i < items.len() && #[trigger] meta_workspace_id(items[i]) == Some(
                (#[trigger] opts[j]).workspace_id,
            ) by {
            let w = opts[j];
            vstd::seq_lib::to_multiset_contains(opts, w);
            vstd::seq_lib::to_multiset_contains(order, w);
            assert(order.to_multiset().count(w) > 0);
            let i: int = choose|i: int| 0 <= i < order.len() && order[i] == w;
            lemma_item_names_workspace(source, email, chatgpt, w);
            assert(items[i] == import_item(source, email, chatgpt, w));
        }
        assert forall|i: int| 0 <= i < items.len() implies exists|j: int|
            0 <= j < opts.len() && #[trigger] meta_workspace_id(items[i]) == Some(
                (#[trigger] opts[j]).workspace_id,
            ) by {
            let w = order[i];
            vstd::seq_lib::to_multiset_contains(order, w);
            vstd::seq_lib::to_multiset_contains(opts, w);
            assert(order.contains(w));
            assert(opts.to_multiset().count(w) > 0);
            let j: int = choose|j: int| 0 <= j < opts.len() && opts[j] == w;
            lemma_item_names_workspace(source, email, chatgpt, w);
            assert(items[i] == import_item(source, email, chatgpt, w));
        }
    }
}


/// The workspace ids that import items name, in item order.
pub open spec fn item_workspace_ids(items: Seq<JsonModel>) -> Seq<Option<Seq<char>>> {
    items.map_values(|item: JsonModel| meta_workspace_id(item))
}

/// The workspace ids of options, in option order.
pub open spec fn option_workspace_ids(opts: Seq<WorkspaceOptionView>) -> Seq<Option<Seq<char>>> {
    opts.map_values(|o: WorkspaceOptionView| Some(o.workspace_id))
}

/// For a login with workspaces, the import request names each workspace
/// once: the items' `meta.workspace_id` values are pairwise distinct and,
/// as a multiset, are exactly the workspace ids of the login's options.
pub proof fn law_import_items_one_per_workspace(
    items: Seq<JsonModel>,
    source: Members,
    id_payload: Option<JsonModel>,
    access_payload: Option<JsonModel>,
    ids: TokenAccountIdsView,
)
    requires
        import_items_spec(items, source, id_payload, access_payload, ids),
        import_options(source, id_payload, access_payload, ids).len() > 0,
    ensures
        item_workspace_ids(items).no_duplicates(),
        item_workspace_ids(items).to_multiset() == option_workspace_ids(
            import_options(source, id_payload, access_payload, ids),
        ).to_multiset(),
{
    let current = current_workspace_model(tokens_model(source), ids);
    let opts = import_options(source, id_payload, access_payload, ids);
    let email = email_model(id_payload);
    let chatgpt = import_chatgpt_model(tokens_model(source), ids);
    let order = choose|order: Seq<WorkspaceOptionView>|
        #[trigger] is_stable_sort_of::<LocalCodexWorkspaceOption>(order, opts) && items
            == order.map_values(|w: WorkspaceOptionView| import_item(source, email, chatgpt, w));
    law_options_distinct(id_payload, access_payload, current);
    let ii = item_workspace_ids(items);
    let oi = option_workspace_ids(opts);
    assert forall|k: int| 0 <= k < order.len() implies #[trigger] ii[k] == Some(order[k].workspace_id) by {
        lemma_item_names_workspace(source, email, chatgpt, order[k]);
    }
    // Every option occurs once, so every member of `order` does too.
    assert(opts.no_duplicates());
    opts.lemma_multiset_has_no_duplicates();
    order.lemma_multiset_has_no_duplicates_conv();
    assert forall|k: int| 0 <= k < order.len() implies exists|a: int|
        0 <= a < opts.len() && opts[a] == #[trigger] order[k] by {
        vstd::seq_lib::to_multiset_contains(order, order[k]);
        vstd::seq_lib::to_multiset_contains(opts, order[k]);
    }
    assert forall|k: int, m: int| 0 <= k < ii.len() && 0 <= m < ii.len() && k != m implies ii[k] != ii[m] by {
        let a: int = choose|a: int| 0 <= a < opts.len() && opts[a] == order[k];
        let b: int = choose|b: int| 0 <= b < opts.len() && opts[b] == order[m];
        if a != b {
            if a < b {
                assert(opts[a].workspace_id != opts[b].workspace_id);
            } else {
                assert(opts[b].workspace_id != opts[a].workspace_id);
            }
        }
    }
    assert forall|k: int, m: int| 0 <= k < oi.len() && 0 <= m < oi.len() && k != m implies oi[k] != oi[m] by {
        if k < m {
            assert(opts[k].workspace_id != opts[m].workspace_id);
        } else {
            assert(opts[m].workspace_id != opts[k].workspace_id);
        }
    }
    assert forall|x: Option<Seq<char>>| #[trigger] ii.contains(x) <==> oi.contains(x) by {
        if ii.contains(x) {
            let k: int = choose|k: int| 0 <= k < ii.len() && ii[k] == x;
            let a: int = choose|a: int| 0 <= a < opts.len() && opts[a] == order[k];
            assert(oi[a] == x);
        }
        if oi.contains(x) {
            let a: int = choose|a: int| 0 <= a < oi.len() && oi[a] == x;
            let w = opts[a];
            vstd::seq_lib::to_multiset_contains(opts, w);
            vstd::seq_lib::to_multiset_contains(order, w);
            let k: int = choose|k: int| 0 <= k < order.len() && order[k] == w;
            assert(ii[k] == x);
        }
    }
    ii.lemma_multiset_has_no_duplicates();
    oi.lemma_multiset_has_no_duplicates();
    assert forall|x: Option<Seq<char>>| #[trigger] ii.to_multiset().count(x) == oi.to_multiset().count(x) by {
        vstd::seq_lib::to_multiset_contains(ii, x);
        vstd::seq_lib::to_multiset_contains(oi, x);
    }
    assert(ii.to_multiset() =~= oi.to_multiset());
}


/// The string member `key` of an import item's `meta` object.
pub open spec fn meta_str(item: JsonModel, key: Seq<char>) -> Option<Seq<char>> {
    match value_get(item, "meta"@) {
        Some(meta) => model_str(value_get(meta, key)),
        None => None,
    }
}

proof fn lemma_item_meta(
    source: Members,
    email: Option<Seq<char>>,
    chatgpt: Option<Seq<char>>,
    w: WorkspaceOptionView,
)
    ensures
        ({
            let item = import_item(source, email, chatgpt, w);
            &&& meta_str(item, "workspace_id"@) == Some(w.workspace_id)
            &&& meta_str(item, "chatgpt_account_id"@) == chatgpt
            &&& meta_str(item, "group_name"@) == w.title
            &&& meta_str(item, "label"@) == Some(import_label(email, w))
        }),
{
    reveal_strlit("workspace_id");
    reveal_strlit("chatgpt_account_id");
    reveal_strlit("group_name");
    reveal_strlit("label");
    let keys = seq!["label"@, "workspace_id"@, "chatgpt_account_id"@, "group_name"@];
    assert("label"@.len() == 5 && "workspace_id"@.len() == 12 && "chatgpt_account_id"@.len() == 18
        && "group_name"@.len() == 10);
    let with_tokens = model_insert(source, "tokens"@, JsonModel::Object(tokens_model(source)));
    let meta = import_meta(email, chatgpt, w);
    law_get_after_insert(with_tokens, "meta"@, JsonModel::Object(meta), "meta"@);
    let m0 = model_insert(Seq::empty(), "label"@, JsonModel::Str(import_label(email, w)));
    let m1 = model_insert(m0, "workspace_id"@, JsonModel::Str(w.workspace_id));
    law_get_after_insert(Seq::empty(), "label"@, JsonModel::Str(import_label(email, w)), "label"@);
    law_get_after_insert(Seq::empty(), "label"@, JsonModel::Str(import_label(email, w)), "chatgpt_account_id"@);
    law_get_after_insert(Seq::empty(), "label"@, JsonModel::Str(import_label(email, w)), "group_name"@);
    assert(model_get(Seq::<(Seq<char>, JsonModel)>::empty(), "chatgpt_account_id"@) is None);
    assert(model_get(Seq::<(Seq<char>, JsonModel)>::empty(), "group_name"@) is None);
    law_get_after_insert(m0, "workspace_id"@, JsonModel::Str(w.workspace_id), "workspace_id"@);
    law_get_after_insert(m0, "workspace_id"@, JsonModel::Str(w.workspace_id), "label"@);
    law_get_after_insert(m0, "workspace_id"@, JsonModel::Str(w.workspace_id), "chatgpt_account_id"@);
    law_get_after_insert(m0, "workspace_id"@, JsonModel::Str(w.workspace_id), "group_name"@);
    let m2 = match chatgpt {
        Some(c) => model_insert(m1, "chatgpt_account_id"@, JsonModel::Str(c)),
        None => m1,
    };
    match chatgpt {
        Some(c) => {
            law_get_after_insert(m1, "chatgpt_account_id"@, JsonModel::Str(c), "chatgpt_account_id"@);
            law_get_after_insert(m1, "chatgpt_account_id"@, JsonModel::Str(c), "workspace_id"@);
            law_get_after_insert(m1, "chatgpt_account_id"@, JsonModel::Str(c), "label"@);
            law_get_after_insert(m1, "chatgpt_account_id"@, JsonModel::Str(c), "group_name"@);
        },
        None => {},
    }
    match w.title {
        Some(t) => {
            law_get_after_insert(m2, "group_name"@, JsonModel::Str(t), "group_name"@);
            law_get_after_insert(m2, "group_name"@, JsonModel::Str(t), "workspace_id"@);
            law_get_after_insert(m2, "group_name"@, JsonModel::Str(t), "label"@);
            law_get_after_insert(m2, "group_name"@, JsonModel::Str(t), "chatgpt_account_id"@);
        },
        None => {},
    }
}

/// For a login with workspaces, every import item's `meta` object names
/// one of the login's workspace options by its id, carries that option's
/// title as `group_name`, and is labelled `"<email> (<title>)"`, the email,
/// the title or the id, as far as the `id_token`'s email claim and the
/// title are known. Its `chatgpt_account_id` is the ChatGPT account id of
/// the `id_token`, else that of the `access_token`, and only when neither
/// carries one the trimmed, non-empty `tokens.account_id` of `auth.json`.
pub proof fn law_import_item_meta(
    items: Seq<JsonModel>,
    source: Members,
    id_payload: Option<JsonModel>,
    access_payload: Option<JsonModel>,
    ids: TokenAccountIdsView,
)
    requires
        import_items_spec(items, source, id_payload, access_payload, ids),
        import_options(source, id_payload, access_payload, ids).len() > 0,
    ensures
        forall|i: int|
            0 <= i < items.len() ==> #[trigger] meta_str(items[i], "chatgpt_account_id"@) == (
            if ids.id_token_chatgpt_account_id is Some {
                ids.id_token_chatgpt_account_id
            } else if ids.access_token_chatgpt_account_id is Some {
                ids.access_token_chatgpt_account_id
            } else {
                match model_get(source, "tokens"@) {
                    Some(JsonModel::Object(t)) => trimmed_non_empty(model_str(model_get(t, "account_id"@))),
                    _ => None,
                }
            }),
        ({
            let opts = import_options(source, id_payload, access_payload, ids);
            let email = email_model(id_payload);
            forall|i: int|
                #![trigger items[i]]
                0 <= i < items.len() ==> exists|j: int|
                    0 <= j < opts.len() && meta_str(items[i], "workspace_id"@) == Some(
                        (#[trigger] opts[j]).workspace_id,
                    ) && meta_str(items[i], "group_name"@) == opts[j].title && meta_str(items[i], "label"@) == Some(
                        match (email, opts[j].title) {
                            (Some(e), Some(t)) => e + " ("@ + t + ")"@,
                            (Some(e), None) => e,
                            (None, Some(t)) => t,
                            (None, None) => opts[j].workspace_id,
                        },
                    )
        }),
{
    let opts = import_options(source, id_payload, access_payload, ids);
    let email = email_model(id_payload);
    let chatgpt = import_chatgpt_model(tokens_model(source), ids);
    let order = choose|order: Seq<WorkspaceOptionView>|
        #[trigger] is_stable_sort_of::<LocalCodexWorkspaceOption>(order, opts) && items
            == order.map_values(|w: WorkspaceOptionView| import_item(source, email, chatgpt, w));
    assert forall|i: int| 0 <= i < items.len() implies #[trigger] meta_str(items[i], "chatgpt_account_id"@) == (
        if ids.id_token_chatgpt_account_id is Some {
            ids.id_token_chatgpt_account_id
        } else if ids.access_token_chatgpt_account_id is Some {
            ids.access_token_chatgpt_account_id
        } else {
            match model_get(source, "tokens"@) {
                Some(JsonModel::Object(t)) => trimmed_non_empty(model_str(model_get(t, "account_id"@))),
                _ => None,
            }
        }) by {
        lemma_item_meta(source, email, chatgpt, order[i]);
        assert(model_get(Seq::<(Seq<char>, JsonModel)>::empty(), "account_id"@) is None);
    }
    assert forall|i: int|
        #![trigger items[i]]
        0 <= i < items.len() implies exists|j: int|
            0 <= j < opts.len() && meta_str(items[i], "workspace_id"@) == Some((#[trigger] opts[j]).workspace_id)
                && meta_str(items[i], "group_name"@) == opts[j].title && meta_str(items[i], "label"@) == Some(
                match (email, opts[j].title) {
                    (Some(e), Some(t)) => e + " ("@ + t + ")"@,
                    (Some(e), None) => e,
                    (None, Some(t)) => t,
                    (None, None) => opts[j].workspace_id,
                },
            ) by {
        let w = order[i];
        lemma_item_meta(source, email, chatgpt, w);
        vstd::seq_lib::to_multiset_contains(order, w);
        vstd::seq_lib::to_multiset_contains(opts, w);
        assert(order.contains(w));
        let j: int = choose|j: int| 0 <= j < opts.len() && opts[j] == w;
        assert(opts[j] == w);
    }
}


/// What an account import reports back, and whether there was an
/// `auth.json` to import.
#[derive(Debug, Clone, PartialEq)]
pub struct LocalCodexImportResult {
    pub auth_file_exists: bool,
    pub total: i64,
    pub created: i64,
    pub updated: i64,
    pub failed: i64,
}

/// A count of the import reply: the member `key` when it is an integer
/// that fits `i64`, else 0.
pub open spec fn reply_count(m: Members, key: Seq<char>) -> i64 {
    match model_get(m, key) {
        Some(JsonModel::Number(NumberModel::Int(n))) => if i64::MIN <= n <= i64::MAX {
            n as i64
        } else {
            0
        },
        _ => 0,
    }
}

/// The `result` object of the import reply, or an empty object.
pub open spec fn reply_result(reply: JsonModel) -> Members {
    match value_get(reply, "result"@) {
        Some(JsonModel::Object(m)) => m,
        _ => Seq::empty(),
    }
}

fn count_of(m: &JsonObject, key: &str) -> (r: i64)
    ensures
        r == reply_count(m@, key@),
{
    match m.get(key) {
        Some(v) => match v.as_i64() {
            Some(n) => n,
            None => 0,
        },
        None => 0,
    }
}

/// The import result: with no `auth.json` (`reply` is `None`) nothing was
/// imported; otherwise the counts `total`, `created`, `updated` and
/// `failed` of the reply's `result` object, 0 for any that is missing.
pub fn local_codex_import_result(reply: Option<&JsonValue>) -> (r: LocalCodexImportResult)
    ensures
        match reply {
            None => !r.auth_file_exists && r.total == 0 && r.created == 0 && r.updated == 0 && r.failed == 0,
            Some(v) => {
                let m = reply_result(v@);
                &&& r.auth_file_exists
                &&& r.total == reply_count(m, "total"@)
                &&& r.created == reply_count(m, "created"@)
                &&& r.updated == reply_count(m, "updated"@)
                &&& r.failed == reply_count(m, "failed"@)
            },
        },
{
    match reply {
        None => LocalCodexImportResult { auth_file_exists: false, total: 0, created: 0, updated: 0, failed: 0 },
        Some(v) => {
            let result = match v.get("result") {
                Some(inner) => match inner.as_object() {
                    Some(o) => o.duplicate(),
                    None => JsonObject::new(),
                },
                None => JsonObject::new(),
            };
            LocalCodexImportResult {
                auth_file_exists: true,
                total: count_of(&result, "total"),
                created: count_of(&result, "created"),
                updated: count_of(&result, "updated"),
                failed: count_of(&result, "failed"),
            }
        },
    }
}

} // verus!
