//! Where the Codex CLI keeps its files: the `.codex` directory in the user's
//! home, and `auth.json`, `config.toml` and the state database in it.
use vstd::prelude::*;
use crate::text::string_opt;

verus! {

/// The home-directory variables of the process environment, as read (each
/// `None` when unset).
#[derive(Debug, Clone, PartialEq)]
pub struct HomeEnv {
    pub home: Option<String>,
    pub userprofile: Option<String>,
    pub homedrive: Option<String>,
    pub homepath: Option<String>,
}

pub struct HomeEnvView {
    pub home: Option<Seq<char>>,
    pub userprofile: Option<Seq<char>>,
    pub homedrive: Option<Seq<char>>,
    pub homepath: Option<Seq<char>>,
}

impl View for HomeEnv {
    type V = HomeEnvView;

    open spec fn view(&self) -> HomeEnvView {
        HomeEnvView {
            home: string_opt(self.home),
            userprofile: string_opt(self.userprofile),
            homedrive: string_opt(self.homedrive),
            homepath: string_opt(self.homepath),
        }
    }
}

/// Which variables give the home directory.
pub enum HomeChoice {
    /// `HOME`, else `USERPROFILE`, when set and not empty.
    Direct(Seq<char>),
    /// `HOMEDRIVE` joined with `HOMEPATH`, both set and not empty.
    Combined(Seq<char>, Seq<char>),
    Missing,
}

pub open spec fn set_non_empty(v: Option<Seq<char>>) -> bool {
    v matches Some(s) && s.len() > 0
}

pub open spec fn home_choice(env: HomeEnvView) -> HomeChoice {
    if set_non_empty(env.home) {
        HomeChoice::Direct(env.home->0)
    } else if set_non_empty(env.userprofile) {
        HomeChoice::Direct(env.userprofile->0)
    } else if set_non_empty(env.homedrive) && set_non_empty(env.homepath) {
        HomeChoice::Combined(env.homedrive->0, env.homepath->0)
    } else {
        HomeChoice::Missing
    }
}

/// A path separator on some platform: `/` everywhere, `\` on Windows.
pub open spec fn is_sep(c: char) -> bool {
    c == '/' || c == '\\'
}

/// Begins with two separators, as UNC, device and verbatim paths do.
pub open spec fn starts_with_two_separators(s: Seq<char>) -> bool {
    s.len() >= 2 && is_sep(s[0]) && is_sep(s[1])
}

/// A base and a name for which the documentation of `PathBuf::push` fixes
/// the result on every platform: the name is not empty and holds no `:`
/// (so it has no Windows prefix), and neither begins with two separators (so
/// neither is a UNC, device or verbatim path, which `push` normalizes).
pub open spec fn joinable(base: Seq<char>, name: Seq<char>) -> bool {
    &&& name.len() > 0
    &&& forall|i: int| 0 <= i < name.len() ==> name[i] != ':'
    &&& !starts_with_two_separators(name)
    &&& !starts_with_two_separators(base)
}

/// `base` joined with `name` where `/` is the only separator: an absolute
/// name replaces the base; otherwise a `/` goes between them unless the base
/// is empty or ends with one.
pub open spec fn unix_join(base: Seq<char>, name: Seq<char>) -> Seq<char> {
    if name[0] == '/' {
        name
    } else if base.len() == 0 || base.last() == '/' {
        base + name
    } else {
        base + seq!['/'] + name
    }
}

/// `base` begins with a Windows drive prefix such as `C:`.
pub open spec fn drive_prefix(base: Seq<char>) -> bool {
    &&& base.len() >= 2
    &&& base[1] == ':'
    &&& {
        let c = base[0] as u32;
        (65 <= c <= 90) || (97 <= c <= 122)
    }
}

/// `base` joined with `name` on Windows, where `/` and `\` separate: a name
/// that begins with a separator keeps only the base's drive prefix;
/// otherwise a `\` goes between them unless the base is empty, ends with a
/// separator, or is a bare drive.
pub open spec fn windows_join(base: Seq<char>, name: Seq<char>) -> Seq<char> {
    if is_sep(name[0]) {
        if drive_prefix(base) {
            base.take(2) + name
        } else {
            name
        }
    } else if base.len() == 0 || is_sep(base.last()) || (drive_prefix(base) && base.len() == 2) {
        base + name
    } else {
        base + seq!['\\'] + name
    }
}

/// `base` joined with `name` on Windows (`windows`) or Unix.
pub open spec fn platform_join(windows: bool, base: Seq<char>, name: Seq<char>) -> Seq<char> {
    if windows {
        windows_join(base, name)
    } else {
        unix_join(base, name)
    }
}

/// `parts` pushed in turn onto an empty path on Windows (`windows`) or
/// Unix: the first part as it is, then each later one joined to what came
/// before.
pub open spec fn platform_path(windows: bool, parts: Seq<Seq<char>>) -> Seq<char>
    decreases parts.len(),
{
    if parts.len() == 0 {
        Seq::empty()
    } else if parts.len() == 1 {
        parts[0]
    } else {
        platform_join(windows, platform_path(windows, parts.drop_last()), parts.last())
    }
}

/// Every part after the first is [`joinable`] to the Windows path of the
/// parts before it (the Unix joins need no more than a non-empty name,
/// which that implies).
pub open spec fn parts_joinable(parts: Seq<Seq<char>>) -> bool {
    forall|i: int| 1 <= i < parts.len() ==> joinable(platform_path(true, parts.take(i)), #[trigger] parts[i])
}

/// `r` is the path that `parts` make on the platform the program runs on,
/// which joins as Unix or as Windows does, where that is stated.
pub open spec fn path_of(parts: Seq<Seq<char>>, r: Seq<char>) -> bool {
    parts_joinable(parts) ==> (r == platform_path(false, parts) || r == platform_path(true, parts))
}

/// `parts.iter().collect::<PathBuf>()` as text: `PathBuf`'s `FromIterator`
/// pushes each part in turn onto an empty path (pushing onto an empty path
/// gives the part itself). For [`parts_joinable`] parts the contract states
/// the result as the documentation of `PathBuf::push` describes it, for
/// Unix or for Windows, the same platform for every part; for other parts
/// (UNC, device and verbatim paths, names with a prefix) it states nothing.
#[verifier::external_body]
fn join_parts(parts: &Vec<String>) -> (r: String)
    ensures
        path_of(parts@.map_values(|p: String| p@), r@),
{
    parts.iter().collect::<std::path::PathBuf>().to_string_lossy().into_owned()
}

fn set_non_empty_exec(v: &Option<String>) -> (r: bool)
    ensures
        r == set_non_empty(string_opt(*v)),
{
    match v {
        Some(s) => s.as_str().unicode_len() > 0,
        None => false,
    }
}

/// The parts of the home directory: `HOME`, else `USERPROFILE`, else
/// `HOMEDRIVE` and `HOMEPATH` (the second pushed onto the first).
pub open spec fn home_parts(env: HomeEnvView) -> Option<Seq<Seq<char>>> {
    match home_choice(env) {
        HomeChoice::Direct(home) => Some(seq![home]),
        HomeChoice::Combined(drive, path) => Some(seq![drive, path]),
        HomeChoice::Missing => None,
    }
}

/// The parts of the Codex directory: the home's, then `.codex`.
pub open spec fn codex_dir_parts(env: HomeEnvView) -> Option<Seq<Seq<char>>> {
    match home_parts(env) {
        Some(parts) => Some(parts.push(".codex"@)),
        None => None,
    }
}

/// `r` is the path of `parts` with `name` pushed, or the error when there
/// are no parts (no home).
pub open spec fn path_result(parts: Option<Seq<Seq<char>>>, r: Result<String, String>) -> bool {
    match parts {
        None => r matches Err(e) && e@ == "HOME/USERPROFILE is not set"@,
        Some(parts) => r matches Ok(p) && path_of(parts, p@),
    }
}

/// The parts of the file `name` in the Codex directory.
pub open spec fn codex_file_parts(env: HomeEnvView, name: Seq<char>) -> Option<Seq<Seq<char>>> {
    match codex_dir_parts(env) {
        Some(parts) => Some(parts.push(name)),
        None => None,
    }
}

fn home_part_list(env: &HomeEnv) -> (r: Option<Vec<String>>)
    ensures
        match home_parts(env@) {
            Some(parts) => r matches Some(v) && v@.map_values(|p: String| p@) == parts,
            None => r is None,
        },
{
    let mut parts: Vec<String> = Vec::new();
    if set_non_empty_exec(&env.home) {
        parts.push(env.home.clone().unwrap());
    } else if set_non_empty_exec(&env.userprofile) {
        parts.push(env.userprofile.clone().unwrap());
    } else if set_non_empty_exec(&env.homedrive) && set_non_empty_exec(&env.homepath) {
        parts.push(env.homedrive.clone().unwrap());
        parts.push(env.homepath.clone().unwrap());
    } else {
        return None;
    }
    proof {
        assert(parts@.map_values(|p: String| p@) =~= home_parts(env@)->0);
    }
    Some(parts)
}

/// The parts of the Codex directory, with `name` pushed last when given.
fn codex_part_list(env: &HomeEnv, name: Option<&str>) -> (r: Option<Vec<String>>)
    ensures
        match (codex_dir_parts(env@), name) {
            (Some(parts), None) => r matches Some(v) && v@.map_values(|p: String| p@) == parts,
            (Some(parts), Some(n)) => r matches Some(v) && v@.map_values(|p: String| p@) == parts.push(n@),
            (None, _) => r is None,
        },
{
    let mut parts = match home_part_list(env) {
        Some(parts) => parts,
        None => return None,
    };
    let ghost before = parts@;
    parts.push(String::from_str(".codex"));
    proof {
        assert(parts@.map_values(|p: String| p@) =~= before.map_values(|p: String| p@).push(".codex"@));
    }
    match name {
        Some(n) => {
            let ghost mid = parts@;
            parts.push(String::from_str(n));
            proof {
                assert(parts@.map_values(|p: String| p@) =~= mid.map_values(|p: String| p@).push(n@));
            }
        },
        None => {},
    }
    Some(parts)
}

/// The Codex directory under the home directory: `<home>/.codex`, the home
/// being `HOME`, else `USERPROFILE`, else `HOMEPATH` pushed onto
/// `HOMEDRIVE`; `HOME/USERPROFILE is not set` when none is set.
pub fn local_codex_dir(env: &HomeEnv) -> (r: Result<String, String>)
    ensures
        path_result(codex_dir_parts(env@), r),
{
    match codex_part_list(env, None) {
        Some(parts) => Ok(join_parts(&parts)),
        None => Err(String::from_str("HOME/USERPROFILE is not set")),
    }
}

/// The file `name` in the Codex directory.
fn codex_file(env: &HomeEnv, name: &str) -> (r: Result<String, String>)
    ensures
        path_result(codex_file_parts(env@, name@), r),
{
    match codex_part_list(env, Some(name)) {
        Some(parts) => Ok(join_parts(&parts)),
        None => Err(String::from_str("HOME/USERPROFILE is not set")),
    }
}

/// `<codex dir>/auth.json`: the current Codex login.
pub fn auth_file_path(env: &HomeEnv) -> (r: Result<String, String>)
    ensures
        path_result(codex_file_parts(env@, "auth.json"@), r),
{
    codex_file(env, "auth.json")
}

/// `<codex dir>/config.toml`: the Codex configuration.
pub fn config_file_path(env: &HomeEnv) -> (r: Result<String, String>)
    ensures
        path_result(codex_file_parts(env@, "config.toml"@), r),
{
    codex_file(env, "config.toml")
}

/// `<codex dir>/state_5.sqlite`: the Codex state database.
pub fn state_db_path(env: &HomeEnv) -> (r: Result<String, String>)
    ensures
        path_result(codex_file_parts(env@, "state_5.sqlite"@), r),
{
    codex_file(env, "state_5.sqlite")
}

/// A file in the Codex directory is that directory joined with the file's
/// name, on the same platform; it fails exactly when the directory does,
/// and its parts are joinable exactly when the directory's are and the name
/// is joinable to the directory.
pub proof fn law_codex_file_in_codex_dir(env: HomeEnvView, name: Seq<char>, windows: bool)
    ensures
        codex_file_parts(env, name) is None <==> codex_dir_parts(env) is None,
        codex_dir_parts(env) matches Some(dir) ==> {
            let file = dir.push(name);
            &&& platform_path(windows, file) == platform_join(windows, platform_path(windows, dir), name)
            &&& parts_joinable(file) <==> (parts_joinable(dir) && joinable(platform_path(true, dir), name))
        },
{
    if let Some(dir) = codex_dir_parts(env) {
        let file = dir.push(name);
        assert(file.drop_last() =~= dir);
        assert(file.take(dir.len() as int) =~= dir);
        assert forall|i: int| 1 <= i < dir.len() implies file.take(i) =~= dir.take(i) && file[i] == dir[i] by {}
        if parts_joinable(file) {
            assert forall|i: int| 1 <= i < dir.len() implies joinable(platform_path(true, dir.take(i)), #[trigger] dir[i]) by {
                assert(file.take(i) =~= dir.take(i));
                assert(file[i] == dir[i]);
            }
            assert(file[dir.len() as int] == name);
        }
        if parts_joinable(dir) && joinable(platform_path(true, dir), name) {
            assert forall|i: int| 1 <= i < file.len() implies joinable(platform_path(true, file.take(i)), #[trigger] file[i]) by {
                if i < dir.len() {
                    assert(file.take(i) =~= dir.take(i));
                    assert(file[i] == dir[i]);
                }
            }
        }
    }
}

/// A name that does not begin with a separator, joined on Windows to a base
/// that does not begin with two, gives a path that does not either.
proof fn lemma_windows_join_plain(base: Seq<char>, name: Seq<char>)
    requires
        name.len() > 0,
        !is_sep(name[0]),
        !starts_with_two_separators(base),
    ensures
        !starts_with_two_separators(windows_join(base, name)),
{
    let r = windows_join(base, name);
    if base.len() >= 2 {
        assert(r[0] == base[0] && r[1] == base[1]);
    } else if base.len() == 1 {
        assert(r[0] == base[0]);
        if is_sep(base[0]) {
            assert(r[1] == name[0]);
        }
    } else {
        assert(r[0] == name[0]);
    }
}

proof fn lemma_joinable_in_codex_dir(home: Seq<char>, name: Seq<char>)
    requires
        !starts_with_two_separators(home),
        joinable(seq![], name),
    ensures
        parts_joinable(seq![home, ".codex"@]),
        parts_joinable(seq![home, ".codex"@, name]),
{
    reveal_strlit(".codex");
    let dir = seq![home, ".codex"@];
    let file = seq![home, ".codex"@, name];
    assert(dir.take(1) =~= seq![home]);
    assert(dir.drop_last() =~= seq![home]);
    assert(file.take(1) =~= seq![home]);
    assert(file.take(2) =~= dir);
    lemma_windows_join_plain(home, ".codex"@);
    assert(platform_path(true, seq![home]) == home);
    assert(dir.last() == ".codex"@);
    assert(platform_path(true, dir) == windows_join(home, ".codex"@));
    assert(joinable(home, ".codex"@));
    assert(joinable(platform_path(true, dir), name));
    assert forall|i: int| 1 <= i < file.len() implies joinable(platform_path(true, file.take(i)), #[trigger] file[i]) by {
        if i == 1 {
            assert(file[1] == ".codex"@);
        }
    }
}

/// For a home that does not begin with two separators, the Codex directory
/// and the files in it are joinable, so their paths are stated.
pub proof fn law_plain_home_paths(home: Seq<char>)
    requires
        !starts_with_two_separators(home),
    ensures
        parts_joinable(seq![home, ".codex"@]),
        parts_joinable(seq![home, ".codex"@, "auth.json"@]),
        parts_joinable(seq![home, ".codex"@, "config.toml"@]),
        parts_joinable(seq![home, ".codex"@, "state_5.sqlite"@]),
{
    reveal_strlit("auth.json");
    reveal_strlit("config.toml");
    reveal_strlit("state_5.sqlite");
    lemma_joinable_in_codex_dir(home, "auth.json"@);
    lemma_joinable_in_codex_dir(home, "config.toml"@);
    lemma_joinable_in_codex_dir(home, "state_5.sqlite"@);
}

/// Which variable gives the home: a set, non-empty `HOME` wins; else a set,
/// non-empty `USERPROFILE`, whatever `HOMEDRIVE` and `HOMEPATH` hold; only
/// when both are unset or empty do `HOMEDRIVE` and `HOMEPATH`, both set and
/// non-empty, give it (`HOMEPATH` pushed onto `HOMEDRIVE`); otherwise there
/// is no Codex directory.
pub proof fn law_home_variable_order(env: HomeEnvView)
    ensures
        env.home matches Some(h) && h.len() > 0 ==> codex_dir_parts(env) == Some(seq![env.home->0, ".codex"@]),
        !(env.home matches Some(h) && h.len() > 0) && (env.userprofile matches Some(u) && u.len() > 0)
            ==> codex_dir_parts(env) == Some(seq![env.userprofile->0, ".codex"@]),
        !(env.home matches Some(h) && h.len() > 0) && !(env.userprofile matches Some(u) && u.len() > 0)
            && (env.homedrive matches Some(d) && d.len() > 0) && (env.homepath matches Some(p) && p.len() > 0)
            ==> codex_dir_parts(env) == Some(seq![env.homedrive->0, env.homepath->0, ".codex"@]),
        !(env.home matches Some(h) && h.len() > 0) && !(env.userprofile matches Some(u) && u.len() > 0)
            && !((env.homedrive matches Some(d) && d.len() > 0) && (env.homepath matches Some(p) && p.len() > 0))
            ==> codex_dir_parts(env) is None,
{
    assert(seq![env.userprofile->0].push(".codex"@) =~= seq![env.userprofile->0, ".codex"@]);
    assert(seq![env.homedrive->0, env.homepath->0].push(".codex"@) =~= seq![env.homedrive->0, env.homepath->0, ".codex"@]);
    assert(seq![env.home->0].push(".codex"@) =~= seq![env.home->0, ".codex"@]);
}

} // verus!
