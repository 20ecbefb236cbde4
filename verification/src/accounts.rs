//! Stored CodexManager accounts against the current Codex login: which
//! account the login is, the list the status view shows, and the
//! `auth.json` document that makes a stored account the current login.
use vstd::prelude::*;
use crate::order::{Ranked, is_stable_sort_of, stable_sort, views};
use crate::text::{
    lemma_seq_lt_irreflexive, lemma_seq_lt_total, lemma_seq_lt_transitive, opt_str_eq, seq_lt,
    str_eq, str_lt, str_opt, string_opt,
};

verus! {

/// An account as the app's storage lists it, with whether storage holds a
/// token for it.
#[derive(Debug, Clone, PartialEq)]
pub struct StoredAccount {
    pub id: String,
    pub label: String,
    pub group_name: Option<String>,
    pub status: String,
    pub workspace_id: Option<String>,
    pub chatgpt_account_id: Option<String>,
    pub has_token: bool,
}

pub struct StoredAccountView {
    pub id: Seq<char>,
    pub label: Seq<char>,
    pub group_name: Option<Seq<char>>,
    pub status: Seq<char>,
    pub workspace_id: Option<Seq<char>>,
    pub chatgpt_account_id: Option<Seq<char>>,
    pub has_token: bool,
}

impl View for StoredAccount {
    type V = StoredAccountView;

    open spec fn view(&self) -> StoredAccountView {
        StoredAccountView {
            id: self.id@,
            label: self.label@,
            group_name: string_opt(self.group_name),
            status: self.status@,
            workspace_id: string_opt(self.workspace_id),
            chatgpt_account_id: string_opt(self.chatgpt_account_id),
            has_token: self.has_token,
        }
    }
}

/// A stored account as the status view lists it.
#[derive(Debug, Clone, PartialEq)]
pub struct LocalCodexWorkspaceAccount {
    pub account_id: String,
    pub label: String,
    pub group_name: Option<String>,
    pub status: String,
    pub workspace_id: Option<String>,
    pub chatgpt_account_id: Option<String>,
    pub is_current: bool,
}

pub struct WorkspaceAccountView {
    pub account_id: Seq<char>,
    pub label: Seq<char>,
    pub group_name: Option<Seq<char>>,
    pub status: Seq<char>,
    pub workspace_id: Option<Seq<char>>,
    pub chatgpt_account_id: Option<Seq<char>>,
    pub is_current: bool,
}

impl View for LocalCodexWorkspaceAccount {
    type V = WorkspaceAccountView;

    open spec fn view(&self) -> WorkspaceAccountView {
        WorkspaceAccountView {
            account_id: self.account_id@,
            label: self.label@,
            group_name: string_opt(self.group_name),
            status: self.status@,
            workspace_id: string_opt(self.workspace_id),
            chatgpt_account_id: string_opt(self.chatgpt_account_id),
            is_current: self.is_current,
        }
    }
}

/// Both present and equal.
pub open spec fn both_equal(a: Option<Seq<char>>, b: Option<Seq<char>>) -> bool {
    a is Some && b is Some && a == b
}

/// Whether an account with workspace id `ws` and ChatGPT account id `cg`
/// is the current login: its workspace matches and so does its ChatGPT
/// account, where the login names one; or, when the login names no
/// workspace, its ChatGPT account matches.
pub open spec fn is_current_account(
    current_ws: Option<Seq<char>>,
    current_cg: Option<Seq<char>>,
    ws: Option<Seq<char>>,
    cg: Option<Seq<char>>,
) -> bool {
    if both_equal(current_ws, ws) {
        current_cg is None || both_equal(current_cg, cg)
    } else {
        current_ws is None && both_equal(current_cg, cg)
    }
}

pub open spec fn listed_account(a: StoredAccountView, current_ws: Option<Seq<char>>, current_cg: Option<Seq<char>>) -> WorkspaceAccountView {
    WorkspaceAccountView {
        account_id: a.id,
        label: a.label,
        group_name: a.group_name,
        status: a.status,
        workspace_id: a.workspace_id,
        chatgpt_account_id: a.chatgpt_account_id,
        is_current: is_current_account(current_ws, current_cg, a.workspace_id, a.chatgpt_account_id),
    }
}

/// The accounts that have a token, in storage order, each marked current
/// or not.
pub open spec fn listed_accounts(
    accounts: Seq<StoredAccountView>,
    current_ws: Option<Seq<char>>,
    current_cg: Option<Seq<char>>,
) -> Seq<WorkspaceAccountView>
    decreases accounts.len(),
{
    if accounts.len() == 0 {
        Seq::empty()
    } else {
        let rest = listed_accounts(accounts.drop_last(), current_ws, current_cg);
        if accounts.last().has_token {
            rest.push(listed_account(accounts.last(), current_ws, current_cg))
        } else {
            rest
        }
    }
}

/// The id of the first listed account that is current.
pub open spec fn first_current(listed: Seq<WorkspaceAccountView>) -> Option<Seq<char>>
    decreases listed.len(),
{
    if listed.len() == 0 {
        None
    } else if listed[0].is_current {
        Some(listed[0].account_id)
    } else {
        first_current(listed.drop_first())
    }
}

/// Current accounts first, then by label, then by account id.
impl Ranked for LocalCodexWorkspaceAccount {
    open spec fn ranks_before(a: WorkspaceAccountView, b: WorkspaceAccountView) -> bool {
        (a.is_current && !b.is_current) || (a.is_current == b.is_current && (seq_lt(a.label, b.label)
            || (a.label == b.label && seq_lt(a.account_id, b.account_id))))
    }

    proof fn lemma_irreflexive(a: WorkspaceAccountView) {
        lemma_seq_lt_irreflexive(a.label);
        lemma_seq_lt_irreflexive(a.account_id);
    }

    proof fn lemma_transitive(a: WorkspaceAccountView, b: WorkspaceAccountView, c: WorkspaceAccountView) {
        if a.is_current == b.is_current && b.is_current == c.is_current {
            if seq_lt(a.label, b.label) && seq_lt(b.label, c.label) {
                lemma_seq_lt_transitive(a.label, b.label, c.label);
            }
            if a.label == b.label && b.label == c.label && seq_lt(a.account_id, b.account_id)
                && seq_lt(b.account_id, c.account_id) {
                lemma_seq_lt_transitive(a.account_id, b.account_id, c.account_id);
            }
        }
    }

    proof fn lemma_split(a: WorkspaceAccountView, b: WorkspaceAccountView, c: WorkspaceAccountView) {
        if a.is_current == b.is_current && c.is_current == a.is_current {
            lemma_seq_lt_total(a.label, c.label);
            if seq_lt(a.label, b.label) {
                if seq_lt(c.label, a.label) {
                    lemma_seq_lt_transitive(c.label, a.label, b.label);
                }
            } else {
                // same label for a and b, a's id first
                if c.label == a.label {
                    lemma_seq_lt_total(a.account_id, c.account_id);
                    if seq_lt(c.account_id, a.account_id) {
                        lemma_seq_lt_transitive(c.account_id, a.account_id, b.account_id);
                    }
                }
            }
        }
    }

    fn goes_before(&self, other: &Self) -> (r: bool) {
        if self.is_current != other.is_current {
            self.is_current
        } else if str_lt(self.label.as_str(), other.label.as_str()) {
            true
        } else if str_eq(self.label.as_str(), other.label.as_str()) {
            str_lt(self.account_id.as_str(), other.account_id.as_str())
        } else {
            false
        }
    }
}

fn clone_opt(a: &Option<String>) -> (r: Option<String>)
    ensures
        string_opt(r) == string_opt(*a),
{
    match a {
        Some(x) => Some(x.clone()),
        None => None,
    }
}

fn as_ref_opt(a: &Option<String>) -> (r: Option<&str>)
    ensures
        str_opt(r) == string_opt(*a),
{
    match a {
        Some(x) => Some(x.as_str()),
        None => None,
    }
}

/// `a.zip(b).is_some_and(|(l, r)| l == r)`.
fn both_equal_exec(a: Option<&str>, b: Option<&str>) -> (r: bool)
    ensures
        r == both_equal(str_opt(a), str_opt(b)),
{
    match b {
        Some(t) => opt_str_eq(a, t),
        None => false,
    }
}

/// The stored accounts that have a token, current ones first and then by
/// label and id, each marked whether it is the current login; and the id of
/// the first such account (in storage order) that is current.
pub fn read_workspace_accounts(
    accounts: Vec<StoredAccount>,
    current_workspace_id: Option<&str>,
    current_chatgpt_account_id: Option<&str>,
) -> (r: (Option<String>, Vec<LocalCodexWorkspaceAccount>))
    ensures
        ({
            let listed = listed_accounts(views(accounts@), str_opt(current_workspace_id), str_opt(current_chatgpt_account_id));
            &&& string_opt(r.0) == first_current(listed)
            &&& is_stable_sort_of::<LocalCodexWorkspaceAccount>(views(r.1@), listed)
        }),
{
    let ghost cws = str_opt(current_workspace_id);
    let ghost ccg = str_opt(current_chatgpt_account_id);
    let ghost all = views(accounts@);
    let mut matched: Option<String> = None;
    let mut items: Vec<LocalCodexWorkspaceAccount> = Vec::new();
    let mut i: usize = 0;
    while i < accounts.len()
        invariant
            0 <= i <= accounts.len(),
            all == views(accounts@),
            cws == str_opt(current_workspace_id),
            ccg == str_opt(current_chatgpt_account_id),
            views(items@) == listed_accounts(all.take(i as int), cws, ccg),
            string_opt(matched) == first_current(listed_accounts(all.take(i as int), cws, ccg)),
        decreases accounts.len() - i,
    {
        let ghost before = views(items@);
        proof {
            assert(all.take(i + 1).drop_last() =~= all.take(i as int));
            assert(all.take(i + 1).last() == accounts@[i as int]@);
        }
        let account = &accounts[i];
        if account.has_token {
            let ws = as_ref_opt(&account.workspace_id);
            let cg = as_ref_opt(&account.chatgpt_account_id);
            let workspace_matches = both_equal_exec(current_workspace_id, ws);
            let chatgpt_matches = both_equal_exec(current_chatgpt_account_id, cg);
            let is_current = if workspace_matches {
                current_chatgpt_account_id.is_none() || chatgpt_matches
            } else {
                current_workspace_id.is_none() && chatgpt_matches
            };
            let item = LocalCodexWorkspaceAccount {
                account_id: account.id.clone(),
                label: account.label.clone(),
                group_name: clone_opt(&account.group_name),
                status: account.status.clone(),
                workspace_id: clone_opt(&account.workspace_id),
                chatgpt_account_id: clone_opt(&account.chatgpt_account_id),
                is_current,
            };
            proof {
                lemma_first_current_push(before, item@);
            }
            if is_current && matched.is_none() {
                matched = Some(account.id.clone());
            }
            items.push(item);
            proof {
                assert(views(items@) =~= before.push(items@.last()@));
            }
        }
        i = i + 1;
    }
    proof {
        assert(all.take(accounts@.len() as int) =~= all);
    }
    let sorted = stable_sort(items);
    (matched, sorted)
}

proof fn lemma_first_current_push(s: Seq<WorkspaceAccountView>, x: WorkspaceAccountView)
    ensures
        first_current(s.push(x)) == (if first_current(s) is Some {
            first_current(s)
        } else if x.is_current {
            Some(x.account_id)
        } else {
            None
        }),
    decreases s.len(),
{
    if s.len() > 0 {
        lemma_first_current_push(s.drop_first(), x);
        assert(s.push(x).drop_first() =~= s.drop_first().push(x));
        assert(s.push(x)[0] == s[0]);
    } else {
        assert(s.push(x).drop_first() =~= Seq::<WorkspaceAccountView>::empty());
        assert(s.push(x)[0] == x);
        assert(first_current(s.push(x).drop_first()) == None::<Seq<char>>);
    }
}


/// In the account list, every current account comes before every account
/// that is not current.
pub proof fn law_current_accounts_first(sorted: Seq<WorkspaceAccountView>, listed: Seq<WorkspaceAccountView>)
    requires
        is_stable_sort_of::<LocalCodexWorkspaceAccount>(sorted, listed),
    ensures
        forall|i: int, j: int|
            0 <= i < j < sorted.len() && (#[trigger] sorted[j]).is_current ==> (#[trigger] sorted[i]).is_current,
{
    assert forall|i: int, j: int|
        0 <= i < j < sorted.len() && (#[trigger] sorted[j]).is_current implies (#[trigger] sorted[i]).is_current by {
        assert(!LocalCodexWorkspaceAccount::ranks_before(sorted[j], sorted[i]));
    }
}

/// The matched account id is that of a listed account that is current; when
/// there is none, no listed account is current.
pub proof fn law_matched_account(listed: Seq<WorkspaceAccountView>)
    ensures
        match first_current(listed) {
            Some(id) => exists|i: int|
                0 <= i < listed.len() && (#[trigger] listed[i]).is_current && listed[i].account_id == id,
            None => forall|i: int| 0 <= i < listed.len() ==> !(#[trigger] listed[i]).is_current,
        },
    decreases listed.len(),
{
    if listed.len() > 0 && !listed[0].is_current {
        let rest = listed.drop_first();
        law_matched_account(rest);
        match first_current(rest) {
            Some(id) => {
                let i: int = choose|i: int| 0 <= i < rest.len() && (#[trigger] rest[i]).is_current && rest[i].account_id == id;
                assert(listed[i + 1] == rest[i]);
            },
            None => {
                assert forall|i: int| 0 <= i < listed.len() implies !(#[trigger] listed[i]).is_current by {
                    if i > 0 {
                        assert(listed[i] == rest[i - 1]);
                    }
                }
            },
        }
    }
}

/// In the account list, of two accounts that are both current or both
/// not, one with a strictly smaller label (in code-point order) never comes
/// after the other; between equal labels, a strictly smaller account id
/// never comes after the other.
pub proof fn law_accounts_by_label_then_id(sorted: Seq<WorkspaceAccountView>, listed: Seq<WorkspaceAccountView>)
    requires
        is_stable_sort_of::<LocalCodexWorkspaceAccount>(sorted, listed),
    ensures
        forall|i: int, j: int|
            0 <= i < j < sorted.len() && (#[trigger] sorted[i]).is_current == (#[trigger] sorted[j]).is_current ==> {
                &&& !seq_lt(sorted[j].label, sorted[i].label)
                &&& sorted[i].label == sorted[j].label ==> !seq_lt(sorted[j].account_id, sorted[i].account_id)
            },
{
    assert forall|i: int, j: int|
        0 <= i < j < sorted.len() && (#[trigger] sorted[i]).is_current == (#[trigger] sorted[j]).is_current implies {
            &&& !seq_lt(sorted[j].label, sorted[i].label)
            &&& sorted[i].label == sorted[j].label ==> !seq_lt(sorted[j].account_id, sorted[i].account_id)
        } by {
        assert(!LocalCodexWorkspaceAccount::ranks_before(sorted[j], sorted[i]));
    }
}

} // verus!
