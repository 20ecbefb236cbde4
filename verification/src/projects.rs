//! The projects that the Codex configuration (`config.toml`) lists, read
//! line by line: a `[projects."<path>"]` header opens a project, and a
//! `trust_level = "<level>"` line under it sets the project's trust level.
use vstd::prelude::*;
use crate::order::views;
use crate::text::{
    chars_of, ends_with, find_char_from, lemma_char_index, range_ends_with, range_starts_with,
    second_field, second_field_bounds, starts_with, str_eq, str_opt, string_of_range, trim,
    trim_bounds, trim_matches, trim_matches_bounds, char_index, opt_str_eq,
};

verus! {

/// A project of the Codex configuration.
#[derive(Debug, Clone, PartialEq)]
pub struct LocalCodexProject {
    pub path: String,
    pub trust_level: String,
    pub is_current: bool,
}

pub struct ProjectView {
    pub path: Seq<char>,
    pub trust_level: Seq<char>,
    pub is_current: bool,
}

impl View for LocalCodexProject {
    type V = ProjectView;

    open spec fn view(&self) -> ProjectView {
        ProjectView { path: self.path@, trust_level: self.trust_level@, is_current: self.is_current }
    }
}

/// The lines of `t`: the pieces between `\n` characters. (Each line is
/// trimmed before it is read, so this agrees with `str::lines`, which also
/// drops a `\r` before `\n` and an empty piece after a final `\n`.)
pub open spec fn split_lines(t: Seq<char>) -> Seq<Seq<char>>
    decreases t.len(),
{
    match char_index(t, '\n') {
        Some(i) => {
            proof {
                lemma_char_index(t, '\n');
            }
            seq![t.take(i)] + split_lines(t.skip(i + 1))
        },
        None => seq![t],
    }
}

pub open spec fn header_prefix() -> Seq<char> {
    "[projects.\""@
}

pub open spec fn header_suffix() -> Seq<char> {
    "\"]"@
}

/// A trimmed line that opens and closes like a project header.
pub open spec fn looks_like_header(l: Seq<char>) -> bool {
    starts_with(l, header_prefix()) && ends_with(l, header_suffix())
}

/// A header too short to hold a path (`[projects."]`), which the reader
/// cannot slice.
pub open spec fn malformed_header(l: Seq<char>) -> bool {
    looks_like_header(l) && l.len() < header_prefix().len() + header_suffix().len()
}

/// The path a trimmed header line opens.
pub open spec fn header_path(l: Seq<char>) -> Option<Seq<char>> {
    if looks_like_header(l) {
        Some(l.subrange(header_prefix().len() as int, l.len() - header_suffix().len()))
    } else {
        None
    }
}

/// The trust level a trimmed line sets: it begins with `trust_level`, and
/// the text after its first `=` (up to a second one) is the level, trimmed
/// of whitespace and then of `"`.
pub open spec fn trust_value(l: Seq<char>) -> Option<Seq<char>> {
    if starts_with(l, "trust_level"@) {
        match second_field(l.skip("trust_level"@.len() as int), '=') {
            Some(v) => Some(trim_matches(trim(v), '"')),
            None => None,
        }
    } else {
        None
    }
}

/// Index of the first project with path `path`.
pub open spec fn project_index(ps: Seq<ProjectView>, path: Seq<char>) -> Option<int>
    decreases ps.len(),
{
    if ps.len() == 0 {
        None
    } else if ps[0].path == path {
        Some(0)
    } else {
        match project_index(ps.drop_first(), path) {
            Some(i) => Some(i + 1),
            None => None,
        }
    }
}

/// What the reader has seen: the projects so far, and the path of the
/// project whose section it is in.
pub struct ConfigState {
    pub projects: Seq<ProjectView>,
    pub current: Option<Seq<char>>,
}

/// Reading one line.
pub open spec fn read_line(st: ConfigState, raw: Seq<char>, current_project: Option<Seq<char>>) -> ConfigState {
    let l = trim(raw);
    match header_path(l) {
        Some(p) => ConfigState {
            projects: st.projects.push(
                ProjectView { path: p, trust_level: Seq::empty(), is_current: current_project == Some(p) },
            ),
            current: Some(p),
        },
        None => match st.current {
            Some(cp) => match (project_index(st.projects, cp), trust_value(l)) {
                (Some(j), Some(v)) => ConfigState {
                    projects: st.projects.update(
                        j,
                        ProjectView {
                            path: st.projects[j].path,
                            trust_level: v,
                            is_current: st.projects[j].is_current,
                        },
                    ),
                    current: st.current,
                },
                _ => st,
            },
            None => st,
        },
    }
}

/// Reading `lines` in order.
pub open spec fn read_lines(st: ConfigState, lines: Seq<Seq<char>>, current_project: Option<Seq<char>>) -> ConfigState
    decreases lines.len(),
{
    if lines.len() == 0 {
        st
    } else {
        read_lines(read_line(st, lines[0], current_project), lines.drop_first(), current_project)
    }
}

/// The projects of a configuration text.
pub open spec fn config_projects(text: Seq<char>, current_project: Option<Seq<char>>) -> Seq<ProjectView> {
    read_lines(ConfigState { projects: Seq::empty(), current: None }, split_lines(text), current_project).projects
}

/// No line of `text` is a malformed project header.
pub open spec fn config_readable(text: Seq<char>) -> bool {
    forall|i: int| 0 <= i < split_lines(text).len() ==> !malformed_header(trim(#[trigger] split_lines(text)[i]))
}


proof fn lemma_project_index(ps: Seq<ProjectView>, path: Seq<char>)
    ensures
        match project_index(ps, path) {
            Some(i) => 0 <= i < ps.len() && ps[i].path == path && forall|k: int| 0 <= k < i ==> ps[k].path != path,
            None => forall|k: int| 0 <= k < ps.len() ==> ps[k].path != path,
        },
    decreases ps.len(),
{
    if ps.len() > 0 && ps[0].path != path {
        let t = ps.drop_first();
        lemma_project_index(t, path);
        assert forall|k: int| 1 <= k < ps.len() implies ps[k] == t[k - 1] by {}
    }
}

proof fn lemma_project_index_at(ps: Seq<ProjectView>, path: Seq<char>, i: int)
    requires
        0 <= i <= ps.len(),
        i < ps.len() ==> ps[i].path == path,
        forall|k: int| 0 <= k < i ==> ps[k].path != path,
    ensures
        project_index(ps, path) == (if i < ps.len() {
            Some(i)
        } else {
            None::<int>
        }),
{
    lemma_project_index(ps, path);
    match project_index(ps, path) {
        Some(j) => {
            if j < i {
            } else if j > i {
            }
        },
        None => {},
    }
}

fn find_project(projects: &Vec<LocalCodexProject>, path: &str) -> (r: Option<usize>)
    ensures
        match r {
            Some(j) => project_index(views(projects@), path@) == Some(j as int) && j < projects@.len(),
            None => project_index(views(projects@), path@) is None,
        },
{
    let mut j: usize = 0;
    while j < projects.len()
        invariant
            0 <= j <= projects.len(),
            forall|k: int| 0 <= k < j ==> (#[trigger] projects@[k]).path@ != path@,
        decreases projects.len() - j,
    {
        if str_eq(projects[j].path.as_str(), path) {
            proof {
                lemma_project_index_at(views(projects@), path@, j as int);
            }
            return Some(j);
        }
        j = j + 1;
    }
    proof {
        lemma_project_index_at(views(projects@), path@, j as int);
    }
    None
}

pub open spec fn state_of(projects: Seq<LocalCodexProject>, current: Option<String>) -> ConfigState {
    ConfigState {
        projects: views(projects),
        current: match current {
            Some(c) => Some(c@),
            None => None,
        },
    }
}

proof fn lemma_split_step(v: Seq<char>, pos: int, hi: int)
    requires
        0 <= pos <= hi <= v.len(),
        char_index(v.skip(pos), '\n') == (if hi < v.len() {
            Some(hi - pos)
        } else {
            None::<int>
        }),
    ensures
        hi < v.len() ==> split_lines(v.skip(pos)) == seq![v.subrange(pos, hi)] + split_lines(v.skip(hi + 1)),
        hi == v.len() ==> split_lines(v.skip(pos)) == seq![v.subrange(pos, hi)],
{
    let t = v.skip(pos);
    if hi < v.len() {
        assert(t.take(hi - pos) =~= v.subrange(pos, hi));
        assert(t.skip(hi - pos + 1) =~= v.skip(hi + 1));
    } else {
        assert(t =~= v.subrange(pos, hi));
    }
}

proof fn lemma_read_lines_cons(st: ConfigState, l: Seq<char>, rest: Seq<Seq<char>>, cp: Option<Seq<char>>)
    ensures
        read_lines(st, seq![l] + rest, cp) == read_lines(read_line(st, l, cp), rest, cp),
{
    let ls = seq![l] + rest;
    assert(ls[0] == l);
    assert(ls.drop_first() =~= rest);
}

proof fn lemma_read_lines_single(st: ConfigState, l: Seq<char>, cp: Option<Seq<char>>)
    ensures
        read_lines(st, seq![l], cp) == read_line(st, l, cp),
{
    let ls = seq![l];
    assert(ls.drop_first() =~= Seq::<Seq<char>>::empty());
    assert(read_lines(read_line(st, l, cp), Seq::<Seq<char>>::empty(), cp) == read_line(st, l, cp));
}

proof fn lemma_literal_lengths()
    ensures
        header_prefix().len() == 11,
        header_suffix().len() == 2,
        "trust_level"@.len() == 11,
{
    reveal_strlit("[projects.\"");
    reveal_strlit("\"]");
    reveal_strlit("trust_level");
}

/// Reads the line `v[lo..hi]` into the state.
fn read_config_line(
    v: &Vec<char>,
    lo: usize,
    hi: usize,
    projects: &mut Vec<LocalCodexProject>,
    current: &mut Option<String>,
    current_project_path: Option<&str>,
    prefix: &Vec<char>,
    suffix: &Vec<char>,
    trust: &Vec<char>,
)
    requires
        lo <= hi <= v.len(),
        prefix@ == header_prefix(),
        suffix@ == header_suffix(),
        trust@ == "trust_level"@,
        !malformed_header(trim(v@.subrange(lo as int, hi as int))),
    ensures
        state_of(final(projects)@, *final(current)) == read_line(
            state_of(old(projects)@, *old(current)),
            v@.subrange(lo as int, hi as int),
            str_opt(current_project_path),
        ),
{
    proof {
        lemma_literal_lengths();
    }
    let ghost st = state_of(projects@, *current);
    let ghost cp_v = str_opt(current_project_path);
    let (a, b): (usize, usize) = trim_bounds(v, lo, hi);
    let ghost l = v@.subrange(a as int, b as int);
    if range_starts_with(v, a, b, prefix) && range_ends_with(v, a, b, suffix) {
        let path = string_of_range(v, a + 11, b - 2);
        proof {
            assert(l.subrange(11, l.len() - 2) =~= v@.subrange(a + 11, b - 2));
        }
        let is_current = opt_str_eq(current_project_path, path.as_str());
        let path_copy = path.clone();
        projects.push(LocalCodexProject { path, trust_level: String::new(), is_current });
        *current = Some(path_copy);
        proof {
            assert(views(projects@) =~= st.projects.push(projects@.last()@));
        }
        return;
    }
    let cp: String = match current {
        Some(c) => c.clone(),
        None => return,
    };
    let j: usize = match find_project(projects, cp.as_str()) {
        Some(j) => j,
        None => return,
    };
    if !range_starts_with(v, a, b, trust) {
        return;
    }
    let (x, y): (usize, usize) = match second_field_bounds(v, a + 11, b, '=') {
        Some(bounds) => bounds,
        None => {
            proof {
                assert(l.skip(11) =~= v@.subrange(a + 11, b as int));
            }
            return;
        },
    };
    proof {
        assert(l.skip(11) =~= v@.subrange(a + 11, b as int));
    }
    let (x2, y2): (usize, usize) = trim_bounds(v, x, y);
    let (x3, y3): (usize, usize) = trim_matches_bounds(v, x2, y2, '"');
    let level = string_of_range(v, x3, y3);
    let updated = LocalCodexProject {
        path: projects[j].path.clone(),
        trust_level: level,
        is_current: projects[j].is_current,
    };
    let ghost before = views(projects@);
    projects.set(j, updated);
    proof {
        assert(views(projects@) =~= before.update(j as int, projects@[j as int]@));
    }
}

/// The projects of the Codex configuration text `text`: one per
/// `[projects."<path>"]` header line, in order, with the trust level of the
/// last `trust_level = ...` line of its section (empty when none), marked
/// current when its path is `current_project_path`. A `trust_level` line
/// under a repeated header sets the first project with that path.
pub fn parse_projects_from_config(text: &str, current_project_path: Option<&str>) -> (r: Vec<LocalCodexProject>)
    requires
        config_readable(text@),
    ensures
        views(r@) == config_projects(text@, str_opt(current_project_path)),
{
    let v = chars_of(text);
    let prefix = chars_of("[projects.\"");
    let suffix = chars_of("\"]");
    let trust = chars_of("trust_level");
    let ghost cp = str_opt(current_project_path);
    let ghost target = config_projects(text@, cp);
    let mut projects: Vec<LocalCodexProject> = Vec::new();
    let mut current: Option<String> = None;
    let mut pos: usize = 0;
    let mut done = false;
    proof {
        assert(v@.skip(0) =~= v@);
        assert(views(projects@) =~= Seq::<ProjectView>::empty());
        assert(state_of(projects@, current) == (ConfigState { projects: Seq::empty(), current: None }));
    }
    while !done
        invariant
            v@ == text@,
            prefix@ == header_prefix(),
            suffix@ == header_suffix(),
            trust@ == "trust_level"@,
            cp == str_opt(current_project_path),
            target == config_projects(text@, cp),
            pos <= v.len(),
            !done ==> read_lines(state_of(projects@, current), split_lines(v@.skip(pos as int)), cp).projects
                == target,
            !done ==> config_readable(v@.skip(pos as int)),
            done ==> views(projects@) == target,
        decreases 2 * (v.len() - pos) + (if done {
            0int
        } else {
            1int
        }),
    {
        let hi: usize = find_char_from(&v, pos, '\n');
        proof {
            lemma_split_step(v@, pos as int, hi as int);
            let lines = split_lines(v@.skip(pos as int));
            assert(lines[0] == v@.subrange(pos as int, hi as int));
            assert(!malformed_header(trim(lines[0])));
        }
        let ghost st = state_of(projects@, current);
        read_config_line(&v, pos, hi, &mut projects, &mut current, current_project_path, &prefix, &suffix, &trust);
        if hi == v.len() {
            proof {
                lemma_read_lines_single(st, v@.subrange(pos as int, hi as int), cp);
            }
            done = true;
        } else {
            proof {
                lemma_read_lines_cons(st, v@.subrange(pos as int, hi as int), split_lines(v@.skip(hi + 1)), cp);
                let lines = split_lines(v@.skip(pos as int));
                let rest = split_lines(v@.skip(hi + 1));
                assert forall|i: int| 0 <= i < rest.len() implies !malformed_header(trim(#[trigger] rest[i])) by {
                    assert(rest[i] == lines[i + 1]);
                }
            }
            pos = hi + 1;
        }
    }
    projects
}


/// Whether some line of `text` is a malformed project header, which
/// [`parse_projects_from_config`] cannot read.
pub fn config_has_malformed_header(text: &str) -> (r: bool)
    ensures
        r == !config_readable(text@),
{
    proof {
        lemma_literal_lengths();
    }
    let v = chars_of(text);
    let prefix = chars_of("[projects.\"");
    let suffix = chars_of("\"]");
    let mut pos: usize = 0;
    proof {
        assert(v@.skip(0) =~= v@);
    }
    loop
        invariant
            v@ == text@,
            prefix@ == header_prefix(),
            suffix@ == header_suffix(),
            pos <= v.len(),
            config_readable(text@) == config_readable(v@.skip(pos as int)),
        decreases v.len() - pos,
    {
        let hi: usize = find_char_from(&v, pos, '\n');
        proof {
            lemma_split_step(v@, pos as int, hi as int);
            lemma_literal_lengths();
        }
        let (a, b): (usize, usize) = trim_bounds(&v, pos, hi);
        let bad = range_starts_with(&v, a, b, &prefix) && range_ends_with(&v, a, b, &suffix) && b - a
            < 13;
        let ghost lines = split_lines(v@.skip(pos as int));
        proof {
            assert(lines[0] == v@.subrange(pos as int, hi as int));
        }
        if bad {
            proof {
                assert(malformed_header(trim(lines[0])));
            }
            return true;
        }
        if hi == v.len() {
            proof {
                assert(lines.len() == 1);
                assert forall|i: int| 0 <= i < lines.len() implies !malformed_header(trim(#[trigger] lines[i])) by {
                    assert(i == 0);
                }
            }
            return false;
        }
        proof {
            let rest = split_lines(v@.skip(hi + 1));
            if config_readable(v@.skip(hi + 1)) {
                assert forall|i: int| 0 <= i < lines.len() implies !malformed_header(trim(#[trigger] lines[i])) by {
                    if i > 0 {
                        assert(lines[i] == rest[i - 1]);
                    }
                }
            }
            if config_readable(v@.skip(pos as int)) {
                assert forall|i: int| 0 <= i < rest.len() implies !malformed_header(trim(#[trigger] rest[i])) by {
                    assert(rest[i] == lines[i + 1]);
                }
            }
        }
        pos = hi + 1;
    }
}

/// The paths of `ps`, in order.
pub open spec fn project_paths(ps: Seq<ProjectView>) -> Seq<Seq<char>> {
    ps.map_values(|p: ProjectView| p.path)
}

/// The paths that the header lines among `lines` open, in order.
pub open spec fn header_paths(lines: Seq<Seq<char>>) -> Seq<Seq<char>>
    decreases lines.len(),
{
    if lines.len() == 0 {
        Seq::empty()
    } else {
        (match header_path(trim(lines[0])) {
            Some(p) => seq![p],
            None => Seq::empty(),
        }) + header_paths(lines.drop_first())
    }
}

/// Every project is marked current exactly when its path is `cp`.
pub open spec fn current_marks(ps: Seq<ProjectView>, cp: Option<Seq<char>>) -> bool {
    forall|i: int| 0 <= i < ps.len() ==> (#[trigger] ps[i]).is_current == (cp == Some(ps[i].path))
}

proof fn lemma_read_lines_laws(st: ConfigState, lines: Seq<Seq<char>>, cp: Option<Seq<char>>)
    requires
        current_marks(st.projects, cp),
    ensures
        project_paths(read_lines(st, lines, cp).projects) == project_paths(st.projects) + header_paths(lines),
        current_marks(read_lines(st, lines, cp).projects, cp),
    decreases lines.len(),
{
    if lines.len() == 0 {
        assert(project_paths(st.projects) + header_paths(lines) =~= project_paths(st.projects));
    } else {
        let next = read_line(st, lines[0], cp);
        let l = trim(lines[0]);
        match header_path(l) {
            Some(p) => {
                assert(project_paths(next.projects) =~= project_paths(st.projects).push(p));
            },
            None => {
                match st.current {
                    Some(c) => {
                        match (project_index(st.projects, c), trust_value(l)) {
                            (Some(j), Some(val)) => {
                                lemma_project_index(st.projects, c);
                                assert(project_paths(next.projects) =~= project_paths(st.projects));
                            },
                            _ => {},
                        }
                    },
                    None => {},
                }
            },
        }
        lemma_read_lines_laws(next, lines.drop_first(), cp);
        assert(project_paths(st.projects) + header_paths(lines) =~= project_paths(next.projects)
            + header_paths(lines.drop_first()));
    }
}

/// The configuration lists one project per header line, in order, and
/// marks a project current exactly when its path is the current project
/// path.
pub proof fn law_config_projects(text: Seq<char>, current_project: Option<Seq<char>>)
    ensures
        project_paths(config_projects(text, current_project)) == header_paths(split_lines(text)),
        current_marks(config_projects(text, current_project), current_project),
{
    let st = ConfigState { projects: Seq::empty(), current: None };
    lemma_read_lines_laws(st, split_lines(text), current_project);
    assert(project_paths(st.projects) + header_paths(split_lines(text)) =~= header_paths(split_lines(text)));
}

/// The paths of the project header lines among the first `n` lines, in
/// order.
pub open spec fn headers_before(lines: Seq<Seq<char>>, n: int) -> Seq<Seq<char>>
    decreases n,
{
    if n <= 0 {
        Seq::empty()
    } else {
        let before = headers_before(lines, n - 1);
        match header_path(trim(lines[n - 1])) {
            Some(p) => before.push(p),
            None => before,
        }
    }
}

/// The section that line `i` lies in: the path of the last header line
/// before it, if any.
pub open spec fn section_of(lines: Seq<Seq<char>>, i: int) -> Option<Seq<char>> {
    let hp = headers_before(lines, i);
    if hp.len() > 0 {
        Some(hp.last())
    } else {
        None
    }
}

/// The trust level that line `i` sets in a section with path `p`: the line
/// is not a header, lies in such a section, and is a `trust_level` line.
pub open spec fn sets_trust(lines: Seq<Seq<char>>, i: int, p: Seq<char>) -> Option<Seq<char>> {
    if header_path(trim(lines[i])) is None && section_of(lines, i) == Some(p) {
        trust_value(trim(lines[i]))
    } else {
        None
    }
}

/// The level set by the last of the first `n` lines that sets a trust level
/// in a section with path `p`.
pub open spec fn last_trust(lines: Seq<Seq<char>>, n: int, p: Seq<char>) -> Option<Seq<char>>
    decreases n,
{
    if n <= 0 {
        None
    } else {
        match sets_trust(lines, n - 1, p) {
            Some(v) => Some(v),
            None => last_trust(lines, n - 1, p),
        }
    }
}

/// No earlier header has the path of header `k`.
pub open spec fn first_with_path(hp: Seq<Seq<char>>, k: int) -> bool {
    forall|k2: int| 0 <= k2 < k ==> hp[k2] != hp[k]
}

/// The trust level of the project of header `k` after `n` lines.
spec fn trust_after(lines: Seq<Seq<char>>, n: int, hp: Seq<Seq<char>>, k: int) -> Seq<char> {
    if first_with_path(hp, k) {
        match last_trust(lines, n, hp[k]) {
            Some(v) => v,
            None => Seq::empty(),
        }
    } else {
        Seq::empty()
    }
}

spec fn read_so_far(lines: Seq<Seq<char>>, n: int, cp: Option<Seq<char>>, st: ConfigState) -> bool {
    let hp = headers_before(lines, n);
    &&& st.projects.len() == hp.len()
    &&& st.current == section_of(lines, n)
    &&& forall|k: int|
        #![trigger st.projects[k]]
        0 <= k < hp.len() ==> {
            &&& st.projects[k].path == hp[k]
            &&& st.projects[k].is_current == (cp == Some(hp[k]))
            &&& st.projects[k].trust_level == trust_after(lines, n, hp, k)
        }
}

proof fn lemma_read_lines_push(st: ConfigState, a: Seq<Seq<char>>, x: Seq<char>, cp: Option<Seq<char>>)
    ensures
        read_lines(st, a.push(x), cp) == read_line(read_lines(st, a, cp), x, cp),
    decreases a.len(),
{
    if a.len() == 0 {
        assert(a.push(x) =~= seq![x]);
        lemma_read_lines_single(st, x, cp);
    } else {
        assert(a.push(x)[0] == a[0]);
        assert(a.push(x).drop_first() =~= a.drop_first().push(x));
        lemma_read_lines_push(read_line(st, a[0], cp), a.drop_first(), x, cp);
    }
}

proof fn lemma_trust_needs_header(lines: Seq<Seq<char>>, n: int, p: Seq<char>)
    requires
        0 <= n <= lines.len(),
        last_trust(lines, n, p) is Some,
    ensures
        headers_before(lines, n).contains(p),
    decreases n,
{
    let hp = headers_before(lines, n);
    let before = headers_before(lines, n - 1);
    assert(forall|k: int| 0 <= k < before.len() ==> hp[k] == before[k]);
    if sets_trust(lines, n - 1, p) is Some {
        assert(hp[before.len() - 1] == p);
    } else {
        lemma_trust_needs_header(lines, n - 1, p);
        let k = choose|k: int| 0 <= k < before.len() && before[k] == p;
        assert(hp[k] == p);
    }
}

proof fn lemma_read_step(lines: Seq<Seq<char>>, n: int, cp: Option<Seq<char>>, st: ConfigState)
    requires
        0 <= n < lines.len(),
        read_so_far(lines, n, cp, st),
    ensures
        read_so_far(lines, n + 1, cp, read_line(st, lines[n], cp)),
{
    let hp = headers_before(lines, n);
    let hp2 = headers_before(lines, n + 1);
    let l = trim(lines[n]);
    let st2 = read_line(st, lines[n], cp);
    match header_path(l) {
        Some(p) => {
            assert(hp2 == hp.push(p));
            assert forall|q: Seq<char>| last_trust(lines, n + 1, q) == last_trust(lines, n, q) by {}
            assert forall|k: int|
                #![trigger st2.projects[k]]
                0 <= k < hp2.len() implies {
                    &&& st2.projects[k].path == hp2[k]
                    &&& st2.projects[k].is_current == (cp == Some(hp2[k]))
                    &&& st2.projects[k].trust_level == trust_after(lines, n + 1, hp2, k)
                } by {
                if k < hp.len() {
                    assert(st2.projects[k] == st.projects[k]);
                    assert(hp2[k] == hp[k]);
                    assert(first_with_path(hp2, k) == first_with_path(hp, k)) by {
                        assert forall|k2: int| 0 <= k2 < k implies hp2[k2] == hp[k2] by {}
                    }
                } else {
                    assert(hp2[k] == p);
                    if first_with_path(hp2, k) {
                        if last_trust(lines, n, p) is Some {
                            lemma_trust_needs_header(lines, n, p);
                            let k2 = choose|k2: int| 0 <= k2 < hp.len() && hp[k2] == p;
                            assert(hp2[k2] == hp[k2]);
                        }
                    }
                }
            }
        },
        None => {
            assert(hp2 == hp);
            match st.current {
                Some(c) => {
                    assert(hp.len() > 0 && c == hp.last());
                    lemma_project_index(st.projects, c);
                    assert(st.projects[hp.len() - 1].path == c);
                    let j = project_index(st.projects, c)->0;
                    assert(first_with_path(hp, j)) by {
                        assert forall|k2: int| 0 <= k2 < j implies hp[k2] != hp[j] by {
                            assert(st.projects[k2].path == hp[k2]);
                        }
                    }
                    match trust_value(l) {
                        Some(v) => {
                            assert(sets_trust(lines, n, c) == Some(v));
                            assert forall|q: Seq<char>| q != c implies last_trust(lines, n + 1, q) == last_trust(lines, n, q) by {}
                            assert forall|k: int|
                                #![trigger st2.projects[k]]
                                0 <= k < hp2.len() implies {
                                    &&& st2.projects[k].path == hp2[k]
                                    &&& st2.projects[k].is_current == (cp == Some(hp2[k]))
                                    &&& st2.projects[k].trust_level == trust_after(lines, n + 1, hp2, k)
                                } by {
                                if k != j {
                                    assert(st2.projects[k] == st.projects[k]);
                                    if hp[k] == c {
                                        if k < j {
                                            assert(st.projects[k].path == c);
                                        }
                                        assert(!first_with_path(hp, k));
                                    }
                                }
                            }
                        },
                        None => {
                            assert(st2 == st);
                            assert forall|q: Seq<char>| last_trust(lines, n + 1, q) == last_trust(lines, n, q) by {}
                        },
                    }
                },
                None => {
                    assert(st2 == st);
                    assert forall|q: Seq<char>| last_trust(lines, n + 1, q) == last_trust(lines, n, q) by {}
                },
            }
        },
    }
}

proof fn lemma_read_prefix(lines: Seq<Seq<char>>, n: int, cp: Option<Seq<char>>)
    requires
        0 <= n <= lines.len(),
    ensures
        read_so_far(lines, n, cp, read_lines(ConfigState { projects: Seq::empty(), current: None }, lines.take(n), cp)),
    decreases n,
{
    let init = ConfigState { projects: Seq::empty(), current: None };
    if n == 0 {
        assert(lines.take(0) =~= Seq::<Seq<char>>::empty());
    } else {
        lemma_read_prefix(lines, n - 1, cp);
        assert(lines.take(n) =~= lines.take(n - 1).push(lines[n - 1]));
        lemma_read_lines_push(init, lines.take(n - 1), lines[n - 1], cp);
        lemma_read_step(lines, n - 1, cp, read_lines(init, lines.take(n - 1), cp));
    }
}

/// The projects of a configuration are its `[projects."<path>"]` header
/// lines, in order: each has the header's path and is current exactly when
/// that path is `current_project`. The first project with a path has the
/// level of the last `trust_level` line that lies in a section (the lines
/// after a header, up to the next header) with that path, and the empty
/// level when there is none; a later project with the same path has the
/// empty level. So a project whose section sets no trust level, and whose
/// path no other section has, has the empty level.
pub proof fn law_project_trust_levels(text: Seq<char>, current_project: Option<Seq<char>>)
    ensures
        ({
            let lines = split_lines(text);
            let hp = headers_before(lines, lines.len() as int);
            let ps = config_projects(text, current_project);
            &&& ps.len() == hp.len()
            &&& forall|k: int|
                #![trigger ps[k]]
                0 <= k < ps.len() ==> {
                    &&& ps[k].path == hp[k]
                    &&& ps[k].is_current == (current_project == Some(hp[k]))
                    &&& ps[k].trust_level == if first_with_path(hp, k) {
                        match last_trust(lines, lines.len() as int, hp[k]) {
                            Some(v) => v,
                            None => Seq::empty(),
                        }
                    } else {
                        Seq::empty()
                    }
                }
        }),
{
    let lines = split_lines(text);
    lemma_read_prefix(lines, lines.len() as int, current_project);
    assert(lines.take(lines.len() as int) =~= lines);
}

} // verus!
