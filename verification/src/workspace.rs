//! Workspace (organization) options of a ChatGPT login, read from the
//! `organizations` claim of its tokens' payloads.
use vstd::prelude::*;
use crate::json::{JsonModel, JsonValue, lemma_values_model, model_get, values_model};
use crate::order::{Ranked, is_stable_sort_of, views};
use crate::text::{lemma_trim_idempotent, lemma_seq_lt_irreflexive, lemma_seq_lt_total, lemma_seq_lt_transitive, seq_lt, str_lt, chars_of, opt_str_eq, str_eq, str_opt, string_opt, trim, trim_non_empty_opt, trim_str, trimmed_non_empty};

verus! {

/// The claims object that OpenAI puts in its tokens' payloads.
pub open spec fn auth_claims_key() -> Seq<char> {
    "https://api.openai.com/auth"@
}

/// A workspace that a login can act in.
#[derive(Debug, Clone, PartialEq)]
pub struct LocalCodexWorkspaceOption {
    pub workspace_id: String,
    pub title: Option<String>,
    pub is_default: bool,
}

/// The model of a [`LocalCodexWorkspaceOption`].
pub struct WorkspaceOptionView {
    pub workspace_id: Seq<char>,
    pub title: Option<Seq<char>>,
    pub is_default: bool,
}

impl View for LocalCodexWorkspaceOption {
    type V = WorkspaceOptionView;

    open spec fn view(&self) -> WorkspaceOptionView {
        WorkspaceOptionView {
            workspace_id: self.workspace_id@,
            title: string_opt(self.title),
            is_default: self.is_default,
        }
    }
}

/// The decoded payloads of a login's two tokens, `id_token` and
/// `access_token`: `None` for a token whose payload did not decode to JSON.
#[derive(Debug, PartialEq)]
pub struct TokenPayloads {
    pub id_token: Option<JsonValue>,
    pub access_token: Option<JsonValue>,
}

pub open spec fn payload_model(p: Option<JsonValue>) -> Option<JsonModel> {
    match p {
        Some(v) => Some(v@),
        None => None,
    }
}

/// `Value::get` on a model.
pub open spec fn value_get(v: JsonModel, key: Seq<char>) -> Option<JsonModel> {
    match v {
        JsonModel::Object(m) => model_get(m, key),
        _ => None,
    }
}

/// `.and_then(Value::as_str)` on a model.
pub open spec fn model_str(v: Option<JsonModel>) -> Option<Seq<char>> {
    match v {
        Some(JsonModel::Str(s)) => Some(s),
        _ => None,
    }
}

/// The option that one element of `organizations` gives: its trimmed `id`
/// when that is a non-empty string, its trimmed non-empty `title`, and
/// whether it is marked `is_default: true` or is the current workspace.
pub open spec fn org_entry(item: JsonModel, current: Option<Seq<char>>) -> Option<WorkspaceOptionView> {
    match model_str(value_get(item, "id"@)) {
        None => None,
        Some(raw) => {
            let id = trim(raw);
            if id.len() == 0 {
                None
            } else {
                Some(
                    WorkspaceOptionView {
                        workspace_id: id,
                        title: trimmed_non_empty(model_str(value_get(item, "title"@))),
                        is_default: value_get(item, "is_default"@) == Some(JsonModel::Bool(true))
                            || current == Some(id),
                    },
                )
            }
        },
    }
}

/// Whether `opts` already holds workspace `id`.
pub open spec fn has_workspace(opts: Seq<WorkspaceOptionView>, id: Seq<char>) -> bool {
    exists|i: int| 0 <= i < opts.len() && #[trigger] opts[i].workspace_id == id
}

/// The options of `orgs`, in order, each workspace once (its first entry).
pub open spec fn org_options(orgs: Seq<JsonModel>, current: Option<Seq<char>>) -> Seq<WorkspaceOptionView>
    decreases orgs.len(),
{
    if orgs.len() == 0 {
        Seq::empty()
    } else {
        let acc = org_options(orgs.drop_last(), current);
        match org_entry(orgs.last(), current) {
            Some(o) => if has_workspace(acc, o.workspace_id) {
                acc
            } else {
                acc.push(o)
            },
            None => acc,
        }
    }
}

/// The `organizations` array of a payload's auth claims.
pub open spec fn payload_orgs(payload: Option<JsonModel>) -> Option<Seq<JsonModel>> {
    match payload {
        Some(p) => match value_get(p, auth_claims_key()) {
            Some(JsonModel::Object(claims)) => match model_get(claims, "organizations"@) {
                Some(JsonModel::Array(orgs)) => Some(orgs),
                _ => None,
            },
            _ => None,
        },
        None => None,
    }
}

/// The options that one payload gives.
pub open spec fn payload_options(payload: Option<JsonModel>, current: Option<Seq<char>>) -> Seq<WorkspaceOptionView> {
    match payload_orgs(payload) {
        Some(orgs) => org_options(orgs, current),
        None => Seq::empty(),
    }
}

/// The options of the `id_token` payload, or, when it gives none, those of
/// the `access_token` payload.
pub open spec fn workspace_options(
    id_payload: Option<JsonModel>,
    access_payload: Option<JsonModel>,
    current: Option<Seq<char>>,
) -> Seq<WorkspaceOptionView> {
    let first = payload_options(id_payload, current);
    if first.len() > 0 {
        first
    } else {
        payload_options(access_payload, current)
    }
}

/// `value.get(key).and_then(Value::as_str)`.
pub fn str_member<'a>(value: &'a JsonValue, key: &str) -> (r: Option<&'a str>)
    ensures
        str_opt(r) == model_str(value_get(value@, key@)),
{
    match value.get(key) {
        Some(v) => v.as_str(),
        None => None,
    }
}

/// The option that one element of `organizations` gives.
fn org_option(item: &JsonValue, current: Option<&str>) -> (r: Option<LocalCodexWorkspaceOption>)
    ensures
        match org_entry(item@, str_opt(current)) {
            Some(o) => r matches Some(x) && x@ == o,
            None => r is None,
        },
{
    let raw = match str_member(item, "id") {
        Some(raw) => raw,
        None => return None,
    };
    let id = trim_str(raw);
    if chars_of(id).len() == 0 {
        return None;
    }
    let title = trim_non_empty_opt(str_member(item, "title"));
    let marked = match item.get("is_default") {
        Some(v) => match v.as_bool() {
            Some(b) => b,
            None => false,
        },
        None => false,
    };
    let is_default = marked || opt_str_eq(current, id);
    Some(LocalCodexWorkspaceOption { workspace_id: String::from_str(id), title, is_default })
}

/// Whether `opts` already holds workspace `id`.
fn holds_workspace(opts: &Vec<LocalCodexWorkspaceOption>, id: &str) -> (r: bool)
    ensures
        r == has_workspace(views(opts@), id@),
{
    let mut i: usize = 0;
    while i < opts.len()
        invariant
            0 <= i <= opts.len(),
            forall|k: int| 0 <= k < i ==> opts@[k].workspace_id@ != id@,
        decreases opts.len() - i,
    {
        if str_eq(opts[i].workspace_id.as_str(), id) {
            proof {
                assert(views(opts@)[i as int].workspace_id == id@);
            }
            return true;
        }
        i = i + 1;
    }
    proof {
        let vs = views(opts@);
        if has_workspace(vs, id@) {
            let k: int = choose|k: int| 0 <= k < vs.len() && #[trigger] vs[k].workspace_id == id@;
            assert(vs[k] == opts@[k]@);
        }
    }
    false
}

/// The options of `orgs`, in order, each workspace once.
fn options_from_orgs(orgs: &Vec<JsonValue>, current: Option<&str>) -> (r: Vec<LocalCodexWorkspaceOption>)
    ensures
        views(r@) == org_options(values_model(orgs@), str_opt(current)),
{
    proof {
        lemma_values_model(orgs@);
    }
    let ghost models = values_model(orgs@);
    let mut opts: Vec<LocalCodexWorkspaceOption> = Vec::new();
    let mut i: usize = 0;
    while i < orgs.len()
        invariant
            0 <= i <= orgs.len(),
            models == values_model(orgs@),
            models.len() == orgs@.len(),
            forall|k: int| 0 <= k < orgs@.len() ==> #[trigger] models[k] == orgs@[k]@,
            views(opts@) == org_options(models.take(i as int), str_opt(current)),
        decreases orgs.len() - i,
    {
        let ghost before = views(opts@);
        proof {
            assert(models.take(i + 1).drop_last() =~= models.take(i as int));
            assert(models.take(i + 1).last() == orgs@[i as int]@);
        }
        match org_option(&orgs[i], current) {
            Some(o) => {
                if !holds_workspace(&opts, o.workspace_id.as_str()) {
                    opts.push(o);
                    proof {
                        assert(views(opts@) =~= before.push(opts@.last()@));
                    }
                }
            },
            None => {},
        }
        i = i + 1;
    }
    proof {
        assert(models.take(orgs@.len() as int) =~= models);
    }
    opts
}


/// The `organizations` array of a payload's auth claims.
fn payload_org_list(payload: &Option<JsonValue>) -> (r: Option<&Vec<JsonValue>>)
    ensures
        match payload_orgs(payload_model(*payload)) {
            Some(orgs) => r matches Some(v) && values_model(v@) == orgs,
            None => r is None,
        },
{
    match payload {
        Some(p) => match p.get("https://api.openai.com/auth") {
            Some(claims) => match claims.as_object() {
                Some(claims) => match claims.get("organizations") {
                    Some(orgs) => orgs.as_array(),
                    None => None,
                },
                None => None,
            },
            None => None,
        },
        None => None,
    }
}

/// The workspace options of a login: those listed in the `organizations`
/// claim of its `id_token` payload or, when that gives none, of its
/// `access_token` payload; each workspace once, in claim order, marked
/// default when the claim says so or when it is `current_workspace_id`.
pub fn current_codex_workspace_options(
    current_workspace_id: Option<&str>,
    payloads: &TokenPayloads,
) -> (r: Vec<LocalCodexWorkspaceOption>)
    ensures
        views(r@) == workspace_options(
            payload_model(payloads.id_token),
            payload_model(payloads.access_token),
            str_opt(current_workspace_id),
        ),
{
    let first = match payload_org_list(&payloads.id_token) {
        Some(orgs) => options_from_orgs(orgs, current_workspace_id),
        None => Vec::new(),
    };
    if first.len() > 0 {
        return first;
    }
    match payload_org_list(&payloads.access_token) {
        Some(orgs) => options_from_orgs(orgs, current_workspace_id),
        None => Vec::new(),
    }
}

/// Default workspaces first, then by workspace id.
impl Ranked for LocalCodexWorkspaceOption {
    open spec fn ranks_before(a: WorkspaceOptionView, b: WorkspaceOptionView) -> bool {
        (a.is_default && !b.is_default) || (a.is_default == b.is_default && seq_lt(
            a.workspace_id,
            b.workspace_id,
        ))
    }

    proof fn lemma_irreflexive(a: WorkspaceOptionView) {
        lemma_seq_lt_irreflexive(a.workspace_id);
    }

    proof fn lemma_transitive(a: WorkspaceOptionView, b: WorkspaceOptionView, c: WorkspaceOptionView) {
        if a.is_default == b.is_default && b.is_default == c.is_default {
            lemma_seq_lt_transitive(a.workspace_id, b.workspace_id, c.workspace_id);
        }
    }

    proof fn lemma_split(a: WorkspaceOptionView, b: WorkspaceOptionView, c: WorkspaceOptionView) {
        if a.is_default == b.is_default && c.is_default == a.is_default {
            lemma_seq_lt_total(a.workspace_id, c.workspace_id);
            if seq_lt(c.workspace_id, a.workspace_id) {
                lemma_seq_lt_transitive(c.workspace_id, a.workspace_id, b.workspace_id);
            }
        }
    }

    fn goes_before(&self, other: &Self) -> (r: bool) {
        if self.is_default != other.is_default {
            self.is_default
        } else {
            str_lt(self.workspace_id.as_str(), other.workspace_id.as_str())
        }
    }
}


/// In sorted options, every default workspace comes before every other.
pub proof fn law_default_options_first(sorted: Seq<WorkspaceOptionView>, opts: Seq<WorkspaceOptionView>)
    requires
        is_stable_sort_of::<LocalCodexWorkspaceOption>(sorted, opts),
    ensures
        forall|i: int, j: int|
            0 <= i < j < sorted.len() && (#[trigger] sorted[j]).is_default ==> (#[trigger] sorted[i]).is_default,
{
    assert forall|i: int, j: int|
        0 <= i < j < sorted.len() && (#[trigger] sorted[j]).is_default implies (#[trigger] sorted[i]).is_default by {
        assert(!LocalCodexWorkspaceOption::ranks_before(sorted[j], sorted[i]));
    }
}

/// The workspace options name each workspace once, by a non-empty trimmed
/// id, and mark the current workspace as default.
pub proof fn law_workspace_options_distinct(orgs: Seq<JsonModel>, current: Option<Seq<char>>)
    ensures
        ({
            let opts = org_options(orgs, current);
            &&& forall|i: int, j: int|
                0 <= i < j < opts.len() ==> (#[trigger] opts[i]).workspace_id != (#[trigger] opts[j]).workspace_id
            &&& forall|i: int|
                0 <= i < opts.len() ==> (#[trigger] opts[i]).workspace_id.len() > 0 && trim(opts[i].workspace_id)
                    == opts[i].workspace_id
            &&& forall|i: int| 0 <= i < opts.len() && current == Some((#[trigger] opts[i]).workspace_id) ==> opts[i].is_default
        }),
    decreases orgs.len(),
{
    if orgs.len() > 0 {
        law_workspace_options_distinct(orgs.drop_last(), current);
        let acc = org_options(orgs.drop_last(), current);
        match org_entry(orgs.last(), current) {
            Some(o) => {
                let raw = model_str(value_get(orgs.last(), "id"@))->0;
                lemma_trim_idempotent(raw);
                assert(trim(o.workspace_id) == o.workspace_id);
                if !has_workspace(acc, o.workspace_id) {
                    let opts = acc.push(o);
                    assert forall|i: int| 0 <= i < opts.len() implies (#[trigger] opts[i]).workspace_id.len() > 0
                        && trim(opts[i].workspace_id) == opts[i].workspace_id by {
                        if i < acc.len() {
                            assert(opts[i] == acc[i]);
                        }
                    }
                    assert forall|i: int| 0 <= i < opts.len() && current == Some((#[trigger] opts[i]).workspace_id)
                        implies opts[i].is_default by {
                        if i < acc.len() {
                            assert(opts[i] == acc[i]);
                        }
                    }
                    assert forall|i: int, j: int|
                        0 <= i < j < opts.len() implies (#[trigger] opts[i]).workspace_id != (#[trigger] opts[j]).workspace_id by {
                        if j == opts.len() - 1 {
                            assert(opts[i] == acc[i]);
                            assert(!(acc[i].workspace_id == o.workspace_id));
                        } else {
                            assert(opts[i] == acc[i] && opts[j] == acc[j]);
                        }
                    }
                }
            },
            None => {},
        }
    }
}

/// The options of a login name each workspace once, whichever token's
/// claim they come from.
pub proof fn law_options_distinct(
    id_payload: Option<JsonModel>,
    access_payload: Option<JsonModel>,
    current: Option<Seq<char>>,
)
    ensures
        ({
            let opts = workspace_options(id_payload, access_payload, current);
            forall|i: int, j: int|
                0 <= i < j < opts.len() ==> (#[trigger] opts[i]).workspace_id != (#[trigger] opts[j]).workspace_id
        }),
{
    match payload_orgs(id_payload) {
        Some(orgs) => law_workspace_options_distinct(orgs, current),
        None => {},
    }
    match payload_orgs(access_payload) {
        Some(orgs) => law_workspace_options_distinct(orgs, current),
        None => {},
    }
}

/// `with` are the options `without` once `current` is the current
/// workspace: the same workspaces and titles in the same order, each marked
/// default when it was, or when it is the current workspace.
pub open spec fn marks_current(
    with: Seq<WorkspaceOptionView>,
    without: Seq<WorkspaceOptionView>,
    current: Option<Seq<char>>,
) -> bool {
    &&& with.len() == without.len()
    &&& forall|i: int|
        0 <= i < with.len() ==> {
            &&& (#[trigger] with[i]).workspace_id == without[i].workspace_id
            &&& with[i].title == without[i].title
            &&& with[i].is_default == (without[i].is_default || current == Some(without[i].workspace_id))
        }
}

proof fn lemma_org_options_mark_current(orgs: Seq<JsonModel>, current: Option<Seq<char>>)
    ensures
        marks_current(org_options(orgs, current), org_options(orgs, None), current),
    decreases orgs.len(),
{
    if orgs.len() > 0 {
        lemma_org_options_mark_current(orgs.drop_last(), current);
        let acc_c = org_options(orgs.drop_last(), current);
        let acc_n = org_options(orgs.drop_last(), None);
        match org_entry(orgs.last(), None) {
            Some(o) => {
                let oc = org_entry(orgs.last(), current)->0;
                if has_workspace(acc_c, o.workspace_id) {
                    let i: int = choose|i: int| 0 <= i < acc_c.len() && #[trigger] acc_c[i].workspace_id == o.workspace_id;
                    assert(acc_n[i].workspace_id == o.workspace_id);
                }
                if has_workspace(acc_n, o.workspace_id) {
                    let i: int = choose|i: int| 0 <= i < acc_n.len() && #[trigger] acc_n[i].workspace_id == o.workspace_id;
                    assert(acc_c[i].workspace_id == o.workspace_id);
                }
                if !has_workspace(acc_n, o.workspace_id) {
                    let with = acc_c.push(oc);
                    let without = acc_n.push(o);
                    assert forall|i: int| 0 <= i < with.len() implies {
                        &&& (#[trigger] with[i]).workspace_id == without[i].workspace_id
                        &&& with[i].title == without[i].title
                        &&& with[i].is_default == (without[i].is_default || current == Some(without[i].workspace_id))
                    } by {
                        if i < acc_c.len() {
                            assert(with[i] == acc_c[i] && without[i] == acc_n[i]);
                        }
                    }
                }
            },
            None => {},
        }
    }
}

/// A current workspace only adds default marks: the options computed with
/// current workspace `current` are those computed with none, in the same
/// order and with the same ids and titles, each marked default when it was
/// or when it is `current`.
pub proof fn law_current_workspace_marks_default(
    id_payload: Option<JsonModel>,
    access_payload: Option<JsonModel>,
    current: Option<Seq<char>>,
)
    ensures
        marks_current(
            workspace_options(id_payload, access_payload, current),
            workspace_options(id_payload, access_payload, None),
            current,
        ),
{
    match payload_orgs(id_payload) {
        Some(orgs) => lemma_org_options_mark_current(orgs, current),
        None => {},
    }
    match payload_orgs(access_payload) {
        Some(orgs) => lemma_org_options_mark_current(orgs, current),
        None => {},
    }
}

/// The organization entry `item` names workspace `id`: its `id` member is a
/// string that trims to `id`, and `id` is not empty.
pub open spec fn entry_names(item: JsonModel, id: Seq<char>) -> bool {
    &&& id.len() > 0
    &&& model_str(value_get(item, "id"@)) matches Some(raw) && trim(raw) == id
}

/// `k` is the first entry of `orgs` that names workspace `id`.
pub open spec fn first_entry_for(orgs: Seq<JsonModel>, k: int, id: Seq<char>) -> bool {
    &&& 0 <= k < orgs.len()
    &&& entry_names(orgs[k], id)
    &&& forall|k2: int| 0 <= k2 < k ==> !entry_names(#[trigger] orgs[k2], id)
}

proof fn lemma_entry_names(item: JsonModel, current: Option<Seq<char>>, id: Seq<char>)
    ensures
        entry_names(item, id) <==> (org_entry(item, current) matches Some(o) && o.workspace_id == id),
{
}

proof fn lemma_org_options_sources(orgs: Seq<JsonModel>, current: Option<Seq<char>>)
    ensures
        ({
            let opts = org_options(orgs, current);
            &&& forall|i: int|
                #![trigger opts[i]]
                0 <= i < opts.len() ==> exists|k: int|
                    #[trigger] first_entry_for(orgs, k, opts[i].workspace_id) && opts[i].title == trimmed_non_empty(
                        model_str(value_get(orgs[k], "title"@)),
                    ) && opts[i].is_default == (value_get(orgs[k], "is_default"@) == Some(JsonModel::Bool(true))
                        || current == Some(opts[i].workspace_id))
            &&& forall|k: int, id: Seq<char>|
                0 <= k < orgs.len() && #[trigger] entry_names(orgs[k], id) ==> has_workspace(opts, id)
        }),
    decreases orgs.len(),
{
    if orgs.len() > 0 {
        let init = orgs.drop_last();
        lemma_org_options_sources(init, current);
        let acc = org_options(init, current);
        let opts = org_options(orgs, current);
        let last = orgs.len() - 1;
        assert(orgs[last] == orgs.last());
        assert forall|k: int| 0 <= k < init.len() implies orgs[k] == #[trigger] init[k] by {}
        // Witnesses in `init` stay witnesses in `orgs`.
        assert forall|id: Seq<char>, k: int| #[trigger] first_entry_for(init, k, id) implies first_entry_for(orgs, k, id) by {
            assert forall|k2: int| 0 <= k2 < k implies !entry_names(#[trigger] orgs[k2], id) by {
                assert(orgs[k2] == init[k2]);
            }
        }
        assert forall|i: int| #![trigger acc[i]] 0 <= i < acc.len() implies exists|k: int|
            #[trigger] first_entry_for(orgs, k, acc[i].workspace_id) && acc[i].title == trimmed_non_empty(
                model_str(value_get(orgs[k], "title"@)),
            ) && acc[i].is_default == (value_get(orgs[k], "is_default"@) == Some(JsonModel::Bool(true))
                || current == Some(acc[i].workspace_id)) by {
            let k = choose|k: int|
                #[trigger] first_entry_for(init, k, acc[i].workspace_id) && acc[i].title == trimmed_non_empty(
                    model_str(value_get(init[k], "title"@)),
                ) && acc[i].is_default == (value_get(init[k], "is_default"@) == Some(JsonModel::Bool(true))
                    || current == Some(acc[i].workspace_id));
            assert(first_entry_for(orgs, k, acc[i].workspace_id));
            assert(orgs[k] == init[k]);
        }
        match org_entry(orgs.last(), current) {
            Some(o) => {
                lemma_entry_names(orgs.last(), current, o.workspace_id);
                if has_workspace(acc, o.workspace_id) {
                    assert(opts == acc);
                    assert forall|k: int, id: Seq<char>|
                        0 <= k < orgs.len() && #[trigger] entry_names(orgs[k], id) implies has_workspace(opts, id) by {
                        if k < last {
                            assert(entry_names(init[k], id));
                        } else {
                            lemma_entry_names(orgs[k], current, id);
                        }
                    }
                } else {
                    assert(opts == acc.push(o));
                    assert forall|i: int| #![trigger opts[i]] 0 <= i < opts.len() implies exists|k: int|
                        #[trigger] first_entry_for(orgs, k, opts[i].workspace_id) && opts[i].title == trimmed_non_empty(
                            model_str(value_get(orgs[k], "title"@)),
                        ) && opts[i].is_default == (value_get(orgs[k], "is_default"@) == Some(JsonModel::Bool(true))
                            || current == Some(opts[i].workspace_id)) by {
                        if i < acc.len() {
                            assert(opts[i] == acc[i]);
                        } else {
                            assert(opts[i] == o);
                            assert forall|k2: int| 0 <= k2 < last implies !entry_names(#[trigger] orgs[k2], o.workspace_id) by {
                                if entry_names(orgs[k2], o.workspace_id) {
                                    assert(entry_names(init[k2], o.workspace_id));
                                }
                            }
                            assert(first_entry_for(orgs, last, o.workspace_id));
                        }
                    }
                    assert forall|k: int, id: Seq<char>|
                        0 <= k < orgs.len() && #[trigger] entry_names(orgs[k], id) implies has_workspace(opts, id) by {
                        if k < last {
                            assert(entry_names(init[k], id));
                            let i = choose|i: int| 0 <= i < acc.len() && #[trigger] acc[i].workspace_id == id;
                            assert(opts[i] == acc[i]);
                        } else {
                            lemma_entry_names(orgs[k], current, id);
                            assert(opts[acc.len() as int] == o);
                        }
                    }
                }
            },
            None => {
                assert(opts == acc);
                assert forall|k: int, id: Seq<char>|
                    0 <= k < orgs.len() && #[trigger] entry_names(orgs[k], id) implies has_workspace(opts, id) by {
                    if k < last {
                        assert(entry_names(init[k], id));
                    } else {
                        lemma_entry_names(orgs[k], current, id);
                    }
                }
            },
        }
    }
}

/// Each workspace option of an `organizations` list comes from the first
/// entry whose `id` trims to the option's id: its title is that entry's
/// trimmed, non-empty `title`, and it is default exactly when that entry
/// has `"is_default": true` or its id is `current`. Every entry whose id
/// trims to a non-empty text has an option.
pub proof fn law_option_fields_from_entry(orgs: Seq<JsonModel>, current: Option<Seq<char>>)
    ensures
        ({
            let opts = org_options(orgs, current);
            &&& forall|i: int|
                #![trigger opts[i]]
                0 <= i < opts.len() ==> exists|k: int|
                    #[trigger] first_entry_for(orgs, k, opts[i].workspace_id) && opts[i].title == trimmed_non_empty(
                        model_str(value_get(orgs[k], "title"@)),
                    ) && opts[i].is_default == (value_get(orgs[k], "is_default"@) == Some(JsonModel::Bool(true))
                        || current == Some(opts[i].workspace_id))
            &&& forall|k: int, id: Seq<char>|
                0 <= k < orgs.len() && #[trigger] entry_names(orgs[k], id) ==> exists|i: int|
                    0 <= i < opts.len() && #[trigger] opts[i].workspace_id == id
        }),
{
    lemma_org_options_sources(orgs, current);
}

/// In sorted options, of two options that are both default or both not, one
/// with a strictly smaller workspace id (in code-point order) never comes
/// after the other.
pub proof fn law_options_by_id(sorted: Seq<WorkspaceOptionView>, opts: Seq<WorkspaceOptionView>)
    requires
        is_stable_sort_of::<LocalCodexWorkspaceOption>(sorted, opts),
    ensures
        forall|i: int, j: int|
            0 <= i < j < sorted.len() && (#[trigger] sorted[i]).is_default == (#[trigger] sorted[j]).is_default
                ==> !seq_lt(sorted[j].workspace_id, sorted[i].workspace_id),
{
    assert forall|i: int, j: int|
        0 <= i < j < sorted.len() && (#[trigger] sorted[i]).is_default == (#[trigger] sorted[j]).is_default
            implies !seq_lt(sorted[j].workspace_id, sorted[i].workspace_id) by {
        assert(!LocalCodexWorkspaceOption::ranks_before(sorted[j], sorted[i]));
    }
}

} // verus!
