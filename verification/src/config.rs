//! The configuration model: folders to search, fzf options, window layouts,
//! sessions and project types; and the rule that picks the session layout
//! for a project.
use vstd::prelude::*;
use crate::path::{component_count, components, drop_cur, join, join_spec, path_starts_with, paths_equal, same_path, under};
use crate::fzf::opt_text;
use crate::text::{chars_of, runs, same_text, text_of, Sep};

verus! {

/// The whole configuration.
#[derive(Clone, Debug)]
pub struct Config {
    pub folders: Folders,
    pub fzf: FzfConfig,
    pub windows: Vec<Window>,
    pub custom_sessions: Vec<Session>,
    pub default_session: Option<Session>,
    pub project_types: Vec<ProjectType>,
}

/// How the project picker runs fzf.
#[derive(Clone, Debug)]
pub struct FzfConfig {
    pub preview: bool,
    pub preview_command: String,
    pub fzf_opts: Option<String>,
}

/// Where projects are searched for.
#[derive(Clone, Debug)]
pub struct Folders {
    pub search_dirs: Vec<String>,
    pub force_include: Option<Vec<String>>,
    pub exclude_paths: Option<Vec<String>>,
}

/// A session layout: the windows it opens, and which projects it is for.
#[derive(Clone, Debug)]
pub struct Session {
    pub name: Option<String>,
    pub paths: Option<Vec<String>>,
    pub types: Option<Vec<String>>,
    pub windows: Vec<String>,
    pub window_focus: Option<String>,
}

/// A kind of project, recognised by the files it holds.
#[derive(Clone, Debug)]
pub struct ProjectType {
    pub name: String,
    pub files: Vec<String>,
}

/// A named window and its panes.
#[derive(Clone, Debug)]
pub struct Window {
    pub name: String,
    pub panes: Vec<Pane>,
}

/// A pane: either split into child panes, or running commands.
#[derive(Debug)]
pub struct Pane {
    pub split: Option<SplitDirection>,
    pub panes: Vec<Pane>,
    pub commands: Option<Vec<String>>,
}

/// How a pane's children are laid out.
#[derive(Clone, Copy, Debug)]
pub enum SplitDirection {
    /// Side by side.
    Vertical,
    /// Top to bottom.
    Horizontal,
}

fn copy_strings(v: &Vec<String>) -> (r: Vec<String>)
    ensures
        r@ == v@,
{
    let mut r: Vec<String> = Vec::new();
    let mut i: usize = 0;
    while i < v.len()
        invariant
            i <= v.len(),
            r@ == v@.take(i as int),
        decreases v.len() - i,
    {
        r.push(v[i].clone());
        assert(v@.take(i + 1) =~= v@.take(i as int).push(v@[i as int]));
        i = i + 1;
    }
    assert(v@.take(v.len() as int) =~= v@);
    r
}

/// Two command lists are the same: both absent, or both present with the
/// same commands in the same order.
pub open spec fn same_commands(a: Option<Vec<String>>, b: Option<Vec<String>>) -> bool {
    match (a, b) {
        (Some(x), Some(y)) => x@ == y@,
        (None, None) => true,
        _ => false,
    }
}

/// Two panes are the same: the same split, the same commands, and as many
/// child panes, each the same as its counterpart.
pub open spec fn same_pane(a: Pane, b: Pane) -> bool
    decreases a, 1int, 0int,
{
    &&& a.split == b.split
    &&& same_commands(a.commands, b.commands)
    &&& a.panes@.len() == b.panes@.len()
    &&& same_panes_from(a.panes@, b.panes@, 0)
}

/// The panes `k..` of `x` are each the same as those of `y` at the same
/// place.
pub open spec fn same_panes_from(x: Seq<Pane>, y: Seq<Pane>, k: int) -> bool
    decreases x, 0int, x.len() - k,
{
    if k < 0 || k >= x.len() {
        true
    } else {
        same_pane(x[k], y[k]) && same_panes_from(x, y, k + 1)
    }
}

/// Where each pane from `k` on is the same as its counterpart, the list
/// from `k` on is the same.
proof fn lemma_same_panes_from(x: Seq<Pane>, y: Seq<Pane>, k: int)
    requires
        0 <= k <= x.len(),
        forall|q: int| k <= q < x.len() ==> same_pane(#[trigger] x[q], y[q]),
    ensures
        same_panes_from(x, y, k),
    decreases x.len() - k,
{
    if k < x.len() {
        lemma_same_panes_from(x, y, k + 1);
    }
}

impl Pane {
    /// A copy of the pane and of every pane below it.
    fn duplicate(&self) -> (r: Pane)
        ensures
            same_pane(*self, r),
        decreases self,
    {
        let mut kids: Vec<Pane> = Vec::new();
        let mut i: usize = 0;
        while i < self.panes.len()
            invariant
                i <= self.panes.len(),
                kids.len() == i,
                forall|q: int| 0 <= q < i ==> same_pane(#[trigger] self.panes@[q], kids@[q]),
            decreases self.panes.len() - i,
        {
            assert(decreases_to!(self => self.panes@[i as int])) by {
                assert(decreases_to!(self => self.panes));
                assert(decreases_to!(self.panes => self.panes@));
                assert(decreases_to!(self.panes@ => self.panes@[i as int]));
            }
            kids.push(self.panes[i].duplicate());
            i = i + 1;
        }
        let commands = match &self.commands {
            Some(c) => Some(copy_strings(c)),
            None => None,
        };
        let r = Pane { split: self.split, panes: kids, commands };
        proof {
            lemma_same_panes_from(self.panes@, r.panes@, 0);
        }
        r
    }
}

impl Clone for Pane {
    fn clone(&self) -> (r: Self)
        ensures
            same_pane(*self, r),
    {
        self.duplicate()
    }
}

/// Whether the fzf preview is on by default: it is.
pub fn preview() -> (b: bool)
    ensures
        b,
{
    true
}

/// The default fzf preview command.
pub fn preview_command() -> (s: String)
    ensures
        s@ == "tree -C -L 2 {}"@,
{
    String::from_str("tree -C -L 2 {}")
}

impl Default for FzfConfig {
    fn default() -> (r: Self)
        ensures
            r.preview,
            r.preview_command@ == "tree -C -L 2 {}"@,
            r.fzf_opts is None,
    {
        FzfConfig { preview: preview(), preview_command: preview_command(), fzf_opts: None }
    }
}

/// The text of an optional string slice.
pub open spec fn opt_str(s: Option<&str>) -> Option<Seq<char>> {
    match s {
        Some(x) => Some(x@),
        None => None,
    }
}

/// `base` joined with `rel`, where there is a base.
pub open spec fn joined_if(base: Option<Seq<char>>, rel: Seq<char>) -> Seq<Seq<char>> {
    match base {
        Some(b) => seq![join_spec(b, rel)],
        None => Seq::empty(),
    }
}

/// Where the configuration file is looked for, in order: the path given on
/// the command line; `config.toml` in `$SEELA_CONFIG_HOME`;
/// `seela/config.toml` in `$XDG_CONFIG_HOME`; `.config/seela/config.toml` in
/// the home directory. Each is there only where its source is.
pub open spec fn config_candidates_spec(
    cli: Option<Seq<char>>,
    seela_home: Option<Seq<char>>,
    xdg_home: Option<Seq<char>>,
    home: Option<Seq<char>>,
) -> Seq<Seq<char>> {
    (match cli {
        Some(c) => seq![c],
        None => Seq::empty(),
    }) + joined_if(seela_home, "config.toml"@) + joined_if(xdg_home, "seela/config.toml"@)
        + joined_if(home, ".config/seela/config.toml"@)
}

fn push_joined(v: &mut Vec<String>, base: Option<&str>, rel: &str)
    ensures
        text_of(final(v)@) == text_of(old(v)@) + joined_if(opt_str(base), rel@),
{
    match base {
        Some(b) => {
            let ghost before = text_of(v@);
            v.push(join(b, rel));
            assert(text_of(v@) =~= before + joined_if(opt_str(base), rel@));
        },
        None => {
            assert(text_of(v@) =~= text_of(v@) + joined_if(opt_str(base), rel@));
        },
    }
}

/// The places to look for the configuration file, in order; the first that
/// exists is used.
pub fn config_candidates(
    cli: Option<&str>,
    seela_home: Option<&str>,
    xdg_home: Option<&str>,
    home: Option<&str>,
) -> (r: Vec<String>)
    ensures
        text_of(r@) == config_candidates_spec(
            opt_str(cli),
            opt_str(seela_home),
            opt_str(xdg_home),
            opt_str(home),
        ),
{
    let mut r: Vec<String> = Vec::new();
    match cli {
        Some(c) => {
            r.push(String::from_str(c));
            assert(text_of(r@) =~= seq![c@]);
        },
        None => {
            assert(text_of(r@) =~= Seq::<Seq<char>>::empty());
        },
    }
    push_joined(&mut r, seela_home, "config.toml");
    push_joined(&mut r, xdg_home, "seela/config.toml");
    push_joined(&mut r, home, ".config/seela/config.toml");
    r
}

/// Whether `s` starts with a `~` that tilde expansion replaces: `~` alone, or
/// `~/`.
pub open spec fn tilde_prefixed(s: Seq<char>) -> bool {
    s.len() > 0 && s[0] == '~' && (s.len() == 1 || s[1] == '/')
}

/// The tilde expansion of `s` with the home directory `home`: a leading `~`
/// or `~/` becomes the home directory followed by the rest of `s`; any other
/// path, or any path where no home directory is known, stays as it is.
pub open spec fn tilde_spec(s: Seq<char>, home: Option<Seq<char>>) -> Seq<char> {
    if tilde_prefixed(s) {
        match home {
            Some(h) => h + s.drop_first(),
            None => s,
        }
    } else {
        s
    }
}

/// Whether `s` is an absolute path: it starts with `/`.
pub open spec fn is_absolute(s: Seq<char>) -> bool {
    s.len() > 0 && s[0] == '/'
}

/// The components of a relative path that stay after the current
/// directory when it is made absolute: all but the `.` ones.
pub open spec fn relative_components(e: Seq<char>) -> Seq<Seq<char>> {
    drop_cur(runs(Sep::Slash, e))
}

/// `a` is the relative path `e` made absolute: an absolute path whose
/// components are those of some directory followed by `e`'s own.
pub open spec fn resolves_to(e: Seq<char>, a: Seq<char>) -> bool {
    is_absolute(a) && exists|dir: Seq<Seq<char>>| components(a) == dir + relative_components(e)
}

/// The home directory and the current directory that configured paths are
/// expanded with: read once, and used for every path.
#[derive(Clone, Debug)]
pub struct Locations {
    pub home: Option<String>,
    pub current: Option<String>,
}

/// The expansion of the configured path `s` with the home directory `home`
/// and the current directory `current`: `~` expanded, then, where the
/// result is a non-empty relative path and the current directory is known,
/// that path below the current directory.
pub open spec fn expansion(s: Seq<char>, home: Option<Seq<char>>, current: Option<Seq<char>>) -> Seq<char> {
    let e = tilde_spec(s, home);
    if e.len() == 0 || is_absolute(e) {
        e
    } else {
        match current {
            Some(c) => join_spec(c, e),
            None => e,
        }
    }
}

/// The expansion of `s` at the locations `at`.
pub open spec fn expanded_at(s: Seq<char>, at: Locations) -> Seq<char> {
    expansion(s, opt_text(at.home), opt_text(at.current))
}

/// The locations as they can be read: the current directory, where known,
/// is absolute.
pub open spec fn readable(at: Locations) -> bool {
    at.current matches Some(c) ==> is_absolute(c@)
}

/// The user's home directory (`dirs::home_dir`), where one is known and is
/// text. It comes from the environment, so the contract says nothing of it.
#[verifier::external_body]
fn home_directory() -> (r: Option<String>) {
    dirs::home_dir().and_then(|p| p.to_str().map(|s| s.to_string()))
}

/// Tilde expansion with a given home directory
/// (`shellexpand::tilde_with_context`, on Unix): exactly `tilde_spec`.
#[verifier::external_body]
fn tilde_with(path: &str, home: Option<&str>) -> (r: String)
    ensures
        r@ == tilde_spec(path@, opt_str(home)),
{
    shellexpand::tilde_with_context(path, || home).to_string()
}

/// `path` made absolute against the current directory
/// (`std::path::absolute`), where that can be done and the result is text.
/// The current directory comes from the environment, so the contract says
/// only what the documentation gives of every outcome: the result is
/// absolute, and for a relative `path` it is some directory followed by
/// the components of `path` other than `.`.
#[verifier::external_body]
fn absolute(path: &str) -> (r: Option<String>)
    ensures
        r matches Some(a) ==> is_absolute(a@) && (!is_absolute(path@) ==> resolves_to(
            path@,
            a@,
        )),
{
    std::path::absolute(path).ok().and_then(|p| p.to_str().map(|s| s.to_string()))
}

impl Locations {
    /// Reads the home directory and the current directory (`.` made
    /// absolute), once.
    pub fn read() -> (r: Locations)
        ensures
            readable(r),
    {
        Locations { home: home_directory(), current: absolute(".") }
    }
}

/// Expands `path` at the locations `at`: `~` becomes the home directory, and
/// a relative path is placed below the current directory.
pub fn expand_path_in(path: &str, at: &Locations) -> (r: String)
    ensures
        r@ == expanded_at(path@, *at),
{
    let home = match &at.home {
        Some(h) => Some(h.as_str()),
        None => None,
    };
    let e = tilde_with(path, home);
    let v = chars_of(e.as_str());
    if v.len() == 0 || v[0] == '/' {
        return e;
    }
    match &at.current {
        Some(c) => join(c.as_str(), e.as_str()),
        None => e,
    }
}

/// Expands a leading `~` to the home directory and makes the path absolute,
/// with the home and current directory read from the environment.
pub fn expand_path(path: &str) -> (r: String)
    ensures
        exists|at: Locations| readable(at) && r@ == expanded_at(path@, at),
{
    let at = Locations::read();
    expand_path_in(path, &at)
}

/// Whether a file or directory exists at `path` (`Path::exists`). What is on
/// disk decides, so the contract says nothing of the result.
#[verifier::external_body]
fn path_exists(path: &str) -> (r: bool) {
    std::path::Path::new(path).exists()
}

/// The paths a session is for.
pub open spec fn session_paths(s: Session) -> Seq<String> {
    match s.paths {
        Some(p) => p@,
        None => Seq::empty(),
    }
}

/// The project types a session is for.
pub open spec fn session_types(s: Session) -> Seq<String> {
    match s.types {
        Some(t) => t@,
        None => Seq::empty(),
    }
}

/// The text of a vector of string vectors.
pub open spec fn nested_text(v: Seq<Vec<String>>) -> Seq<Seq<Seq<char>>> {
    v.map_values(|x: Vec<String>| text_of(x@))
}

/// `exp` has one entry per session, and one path per path of that session.
pub open spec fn fits_sessions(sessions: Seq<Session>, exp: Seq<Seq<Seq<char>>>) -> bool {
    &&& exp.len() == sessions.len()
    &&& forall|i: int|
        0 <= i < exp.len() ==> #[trigger] exp[i].len() == session_paths(sessions[i]).len()
}

/// The expansion of each path of each session, at the locations `at`.
pub open spec fn session_expansions(sessions: Seq<Session>, at: Locations) -> Seq<Seq<Seq<char>>> {
    Seq::new(
        sessions.len(),
        |i: int| session_paths(sessions[i]).map_values(|p: String| expanded_at(p@, at)),
    )
}

/// Whether one of the paths `exp_i` names `path` itself.
pub open spec fn exact_hit(exp_i: Seq<Seq<char>>, path: Seq<char>) -> bool {
    exists|j: int| 0 <= j < exp_i.len() && same_path(#[trigger] exp_i[j], path)
}

/// Whether one of `types` names a project type that was found (`detected`
/// runs parallel to `project_types`).
pub open spec fn type_hit(
    types: Seq<String>,
    project_types: Seq<ProjectType>,
    detected: Seq<bool>,
) -> bool {
    exists|a: int, k: int|
        0 <= a < types.len() && 0 <= k < project_types.len() && detected[k]
            && #[trigger] project_types[k].name@ == #[trigger] types[a]@
}

/// The depth (number of components) of the deepest path of `exp_i` under
/// which `path` lies, or -1 where it lies under none of them; of equally deep
/// ones the first counts.
pub open spec fn prefix_depth(exp_i: Seq<Seq<char>>, path: Seq<char>) -> int
    decreases exp_i.len(),
{
    if exp_i.len() == 0 {
        -1
    } else {
        let d = prefix_depth(exp_i.drop_last(), path);
        let e = exp_i.last();
        if under(path, e) && components(e).len() > d {
            components(e).len() as int
        } else {
            d
        }
    }
}

/// The session whose paths hold `path` most closely: the session with the
/// deepest path above `path`, the first of them where several are as deep.
pub open spec fn closest_session(exp: Seq<Seq<Seq<char>>>, path: Seq<char>) -> Option<int>
    decreases exp.len(),
{
    if exp.len() == 0 {
        None
    } else {
        let prev = closest_session(exp.drop_last(), path);
        let d = prefix_depth(exp.last(), path);
        if d >= 0 && (prev is None || d > prefix_depth(exp[prev->0], path)) {
            Some(exp.len() - 1)
        } else {
            prev
        }
    }
}

/// The first `i` in `k..n` with `pred(i)`.
pub open spec fn first_from(pred: spec_fn(int) -> bool, k: int, n: int) -> Option<int>
    decreases n - k,
{
    if k >= n {
        None
    } else if pred(k) {
        Some(k)
    } else {
        first_from(pred, k + 1, n)
    }
}

/// The custom session for `path`: the first one with a path equal to it;
/// else the first one of a project type found there; else the one with the
/// closest path above it; `None` where there is none of these (and the
/// default session applies).
pub open spec fn pick_session(
    sessions: Seq<Session>,
    exp: Seq<Seq<Seq<char>>>,
    path: Seq<char>,
    project_types: Seq<ProjectType>,
    detected: Seq<bool>,
) -> Option<int> {
    let n = sessions.len() as int;
    match first_from(exact_pred(exp, path), 0, n) {
        Some(i) => Some(i),
        None => match first_from(type_pred(sessions, project_types, detected), 0, n) {
            Some(i) => Some(i),
            None => closest_session(exp, path),
        },
    }
}

fn exact_hit_exec(exp_i: &Vec<String>, path: &str) -> (r: bool)
    ensures
        r == exact_hit(text_of(exp_i@), path@),
{
    let mut j: usize = 0;
    while j < exp_i.len()
        invariant
            j <= exp_i.len(),
            forall|k: int| 0 <= k < j ==> !same_path(#[trigger] text_of(exp_i@)[k], path@),
        decreases exp_i.len() - j,
    {
        if paths_equal(exp_i[j].as_str(), path) {
            assert(text_of(exp_i@)[j as int] == exp_i@[j as int]@);
            return true;
        }
        assert(text_of(exp_i@)[j as int] == exp_i@[j as int]@);
        j = j + 1;
    }
    false
}

fn type_hit_exec(types: &Vec<String>, project_types: &Vec<ProjectType>, detected: &Vec<bool>) -> (r: bool)
    requires
        detected.len() == project_types.len(),
    ensures
        r == type_hit(types@, project_types@, detected@),
{
    let mut a: usize = 0;
    while a < types.len()
        invariant
            a <= types.len(),
            detected.len() == project_types.len(),
            forall|x: int, k: int|
                0 <= x < a && 0 <= k < project_types.len() && detected@[k]
                    ==> #[trigger] project_types@[k].name@ != #[trigger] types@[x]@,
        decreases types.len() - a,
    {
        let mut k: usize = 0;
        while k < project_types.len()
            invariant
                a < types.len(),
                k <= project_types.len(),
                detected.len() == project_types.len(),
                forall|x: int, kk: int|
                    0 <= x < a && 0 <= kk < project_types.len() && detected@[kk]
                        ==> #[trigger] project_types@[kk].name@ != #[trigger] types@[x]@,
                forall|kk: int|
                    0 <= kk < k && detected@[kk] ==> #[trigger] project_types@[kk].name@
                        != types@[a as int]@,
            decreases project_types.len() - k,
        {
            if detected[k] && project_types[k].name == types[a] {
                assert(project_types@[k as int].name@ == types@[a as int]@);
                return true;
            }
            k = k + 1;
        }
        a = a + 1;
    }
    false
}

fn prefix_depth_exec(exp_i: &Vec<String>, path: &str) -> (r: Option<usize>)
    ensures
        r matches Some(d) ==> prefix_depth(text_of(exp_i@), path@) == d,
        r is None ==> prefix_depth(text_of(exp_i@), path@) == -1,
{
    let mut best: Option<usize> = None;
    let mut j: usize = 0;
    while j < exp_i.len()
        invariant
            j <= exp_i.len(),
            best matches Some(d) ==> prefix_depth(text_of(exp_i@).take(j as int), path@) == d,
            best is None ==> prefix_depth(text_of(exp_i@).take(j as int), path@) == -1,
        decreases exp_i.len() - j,
    {
        let ghost pre = text_of(exp_i@).take(j as int);
        let ghost cur = text_of(exp_i@).take(j + 1);
        assert(cur.drop_last() =~= pre);
        assert(cur.last() == exp_i@[j as int]@);
        let e = exp_i[j].as_str();
        if path_starts_with(path, e) {
            let c = component_count(e);
            match best {
                None => {
                    best = Some(c);
                },
                Some(d) => {
                    if c > d {
                        best = Some(c);
                    }
                },
            }
        }
        j = j + 1;
    }
    assert(text_of(exp_i@).take(exp_i.len() as int) =~= text_of(exp_i@));
    best
}

/// The files to look for at `path`, for each project type: `path` joined
/// with each of the type's files.
pub open spec fn probes_spec(types: Seq<ProjectType>, path: Seq<char>) -> Seq<Seq<Seq<char>>> {
    Seq::new(
        types.len(),
        |k: int| Seq::new(types[k].files@.len(), |j: int| join_spec(path, types[k].files@[j]@)),
    )
}

/// The flags of a vector of flag vectors.
pub open spec fn flag_rows(v: Seq<Vec<bool>>) -> Seq<Seq<bool>> {
    v.map_values(|x: Vec<bool>| x@)
}

/// `found` holds one answer for each file to look for.
pub open spec fn answers_probes(found: Seq<Seq<bool>>, probes: Seq<Seq<Seq<char>>>) -> bool {
    &&& found.len() == probes.len()
    &&& forall|k: int| 0 <= k < found.len() ==> #[trigger] found[k].len() == probes[k].len()
}

/// A project type is found where one of its files is.
pub open spec fn found_types(found: Seq<Seq<bool>>) -> Seq<bool> {
    Seq::new(found.len(), |k: int| exists|j: int| 0 <= j < found[k].len() && #[trigger] found[k][j])
}

/// For each project type, whether one of its files was found.
pub fn types_found(found: &Vec<Vec<bool>>) -> (r: Vec<bool>)
    ensures
        r@ == found_types(flag_rows(found@)),
{
    let mut r: Vec<bool> = Vec::new();
    let mut k: usize = 0;
    while k < found.len()
        invariant
            k <= found.len(),
            r.len() == k,
            forall|q: int| 0 <= q < k ==> #[trigger] r@[q] == found_types(flag_rows(found@))[q],
        decreases found.len() - k,
    {
        let row = &found[k];
        let mut any = false;
        let mut j: usize = 0;
        while j < row.len()
            invariant
                j <= row.len(),
                any == exists|q: int| 0 <= q < j && #[trigger] row@[q],
            decreases row.len() - j,
        {
            if row[j] {
                any = true;
            }
            j = j + 1;
        }
        assert(flag_rows(found@)[k as int] == row@);
        r.push(any);
        k = k + 1;
    }
    assert(r@ =~= found_types(flag_rows(found@)));
    r
}

/// Whether each file to look for exists.
fn look_for(probes: &Vec<Vec<String>>) -> (r: Vec<Vec<bool>>)
    ensures
        answers_probes(flag_rows(r@), nested_text(probes@)),
{
    let mut r: Vec<Vec<bool>> = Vec::new();
    let mut k: usize = 0;
    while k < probes.len()
        invariant
            k <= probes.len(),
            r.len() == k,
            forall|q: int| 0 <= q < k ==> #[trigger] r@[q].len() == probes@[q].len(),
        decreases probes.len() - k,
    {
        let row = &probes[k];
        let mut answers: Vec<bool> = Vec::new();
        let mut j: usize = 0;
        while j < row.len()
            invariant
                j <= row.len(),
                answers.len() == j,
            decreases row.len() - j,
        {
            answers.push(path_exists(row[j].as_str()));
            j = j + 1;
        }
        r.push(answers);
        k = k + 1;
    }
    assert forall|q: int| 0 <= q < flag_rows(r@).len() implies #[trigger] flag_rows(r@)[q].len()
        == nested_text(probes@)[q].len() by {
        assert(flag_rows(r@)[q] == r@[q]@);
        assert(nested_text(probes@)[q] == text_of(probes@[q]@));
        assert(r@[q].len() == probes@[q].len());
        assert(text_of(probes@[q]@).len() == probes@[q]@.len());
    }
    assert(flag_rows(r@).len() == nested_text(probes@).len());
    r
}

/// The sessions that name `path` itself.
pub open spec fn exact_pred(exp: Seq<Seq<Seq<char>>>, path: Seq<char>) -> spec_fn(int) -> bool {
    |i: int| exact_hit(exp[i], path)
}

/// The sessions of a project type found at the path.
pub open spec fn type_pred(
    sessions: Seq<Session>,
    project_types: Seq<ProjectType>,
    detected: Seq<bool>,
) -> spec_fn(int) -> bool {
    |i: int| type_hit(session_types(sessions[i]), project_types, detected)
}

impl Config {
    /// The index of the custom session for `path`, given the expansion
    /// of every session path (`expanded`, one vector per session) and which
    /// project types were found at `path` (`detected`, one flag per project
    /// type); `None` where no custom session applies.
    pub fn choose_session(&self, path: &str, expanded: &Vec<Vec<String>>, detected: &Vec<bool>) -> (r: Option<usize>)
        requires
            fits_sessions(self.custom_sessions@, nested_text(expanded@)),
            detected.len() == self.project_types.len(),
        ensures
            r matches Some(i) ==> pick_session(
                self.custom_sessions@,
                nested_text(expanded@),
                path@,
                self.project_types@,
                detected@,
            ) == Some(i as int),
            r is None ==> pick_session(
                self.custom_sessions@,
                nested_text(expanded@),
                path@,
                self.project_types@,
                detected@,
            ) is None,
            r matches Some(i) ==> i < self.custom_sessions.len(),
    {
        let ghost exp = nested_text(expanded@);
        let ghost pe = exact_pred(exp, path@);
        let ghost pt = type_pred(self.custom_sessions@, self.project_types@, detected@);
        let n = self.custom_sessions.len();
        let mut i: usize = 0;
        while i < n
            invariant
                i <= n,
                n == self.custom_sessions.len(),
                exp == nested_text(expanded@),
                fits_sessions(self.custom_sessions@, exp),
                pe == exact_pred(exp, path@),
                first_from(pe, 0, n as int) == first_from(pe, i as int, n as int),
            decreases n - i,
        {
            assert(exp[i as int] == text_of(expanded@[i as int]@));
            if exact_hit_exec(&expanded[i], path) {
                assert(pe(i as int));
                return Some(i);
            }
            i = i + 1;
        }
        let mut i: usize = 0;
        while i < n
            invariant
                i <= n,
                n == self.custom_sessions.len(),
                detected.len() == self.project_types.len(),
                pt == type_pred(self.custom_sessions@, self.project_types@, detected@),
                first_from(pt, 0, n as int) == first_from(pt, i as int, n as int),
                exp == nested_text(expanded@),
                pe == exact_pred(exp, path@),
                first_from(pe, 0, n as int) is None,
            decreases n - i,
        {
            let hit = match &self.custom_sessions[i].types {
                Some(t) => type_hit_exec(t, &self.project_types, detected),
                None => false,
            };
            if hit {
                assert(pt(i as int));
                return Some(i);
            }
            i = i + 1;
        }
        let mut best: Option<usize> = None;
        let mut best_depth: usize = 0;
        let mut i: usize = 0;
        while i < n
            invariant
                i <= n,
                n == self.custom_sessions.len(),
                exp == nested_text(expanded@),
                fits_sessions(self.custom_sessions@, exp),
                best matches Some(b) ==> closest_session(exp.take(i as int), path@) == Some(
                    b as int,
                ) && b < i && prefix_depth(exp[b as int], path@) == best_depth,
                best is None ==> closest_session(exp.take(i as int), path@) is None,
                pe == exact_pred(exp, path@),
                first_from(pe, 0, n as int) is None,
                pt == type_pred(self.custom_sessions@, self.project_types@, detected@),
                first_from(pt, 0, n as int) is None,
            decreases n - i,
        {
            let ghost pre = exp.take(i as int);
            let ghost cur = exp.take(i + 1);
            assert(cur.drop_last() =~= pre);
            assert(cur.last() == exp[i as int]);
            assert(exp[i as int] == text_of(expanded@[i as int]@));
            match prefix_depth_exec(&expanded[i], path) {
                None => {},
                Some(d) => {
                    match best {
                        None => {
                            best = Some(i);
                            best_depth = d;
                        },
                        Some(b) => {
                            assert(cur[b as int] == exp[b as int]);
                            if d > best_depth {
                                best = Some(i);
                                best_depth = d;
                            }
                        },
                    }
                },
            }
            i = i + 1;
        }
        assert(exp.take(n as int) =~= exp);
        best
    }

    /// The expansion of every path of every custom session, at the
    /// locations `at`.
    fn expand_session_paths(&self, at: &Locations) -> (r: Vec<Vec<String>>)
        ensures
            nested_text(r@) == session_expansions(self.custom_sessions@, *at),
    {
        let mut r: Vec<Vec<String>> = Vec::new();
        let n = self.custom_sessions.len();
        let mut i: usize = 0;
        while i < n
            invariant
                i <= n,
                n == self.custom_sessions.len(),
                r.len() == i,
                forall|k: int| 0 <= k < i ==> #[trigger] text_of(r@[k]@) == session_expansions(
                    self.custom_sessions@,
                    *at,
                )[k],
            decreases n - i,
        {
            let ghost want = session_paths(self.custom_sessions@[i as int]);
            let mut e: Vec<String> = Vec::new();
            match &self.custom_sessions[i].paths {
                None => {},
                Some(ps) => {
                    let mut j: usize = 0;
                    while j < ps.len()
                        invariant
                            j <= ps.len(),
                            e.len() == j,
                            forall|q: int| 0 <= q < j ==> #[trigger] e@[q]@ == expanded_at(ps@[q]@, *at),
                        decreases ps.len() - j,
                    {
                        e.push(expand_path_in(ps[j].as_str(), at));
                        j = j + 1;
                    }
                },
            }
            assert(text_of(e@) =~= want.map_values(|p: String| expanded_at(p@, *at)));
            r.push(e);
            i = i + 1;
        }
        assert(nested_text(r@) =~= session_expansions(self.custom_sessions@, *at));
        r
    }

    /// The files to look for at `path`: for each project type, `path`
    /// joined with each of its files.
    pub fn probe_paths(&self, path: &str) -> (r: Vec<Vec<String>>)
        ensures
            nested_text(r@) == probes_spec(self.project_types@, path@),
    {
        let mut r: Vec<Vec<String>> = Vec::new();
        let n = self.project_types.len();
        let mut k: usize = 0;
        while k < n
            invariant
                k <= n,
                n == self.project_types.len(),
                r.len() == k,
                forall|q: int| 0 <= q < k ==> #[trigger] text_of(r@[q]@) == probes_spec(self.project_types@, path@)[q],
            decreases n - k,
        {
            let files = &self.project_types[k].files;
            let mut row: Vec<String> = Vec::new();
            let mut j: usize = 0;
            while j < files.len()
                invariant
                    j <= files.len(),
                    row.len() == j,
                    forall|q: int| 0 <= q < j ==> #[trigger] row@[q]@ == join_spec(path@, files@[q]@),
                decreases files.len() - j,
            {
                row.push(join(path, files[j].as_str()));
                j = j + 1;
            }
            assert(text_of(row@) =~= probes_spec(self.project_types@, path@)[k as int]);
            r.push(row);
            k = k + 1;
        }
        assert(nested_text(r@) =~= probes_spec(self.project_types@, path@));
        r
    }

    /// The session layout for the project at `path`: the first custom
    /// session with a path equal to `path`; else the first one of a project
    /// type found in `path`; else the one whose path holds `path` most
    /// closely; else the default session. Every session path is expanded
    /// with one home and current directory, read once (`Locations::read`),
    /// and a project type is found where one of its files (`probe_paths`)
    /// exists; the contract states the choice for whatever locations were
    /// read and whatever the disk answered, one answer per probed file,
    /// combined as `types_found` does.
    pub fn get_session_for_path(&self, path: &str) -> (r: Option<&Session>)
        ensures
            exists|at: Locations, found: Seq<Seq<bool>>|
                {
                    &&& readable(at)
                    &&& answers_probes(found, probes_spec(self.project_types@, path@))
                    &&& match pick_session(
                        self.custom_sessions@,
                        session_expansions(self.custom_sessions@, at),
                        path@,
                        self.project_types@,
                        found_types(found),
                    ) {
                        Some(i) => r matches Some(s) && *s == self.custom_sessions@[i],
                        None => match self.default_session {
                            Some(d) => r matches Some(s) && *s == d,
                            None => r is None,
                        },
                    }
                },
    {
        let at = Locations::read();
        let expanded = self.expand_session_paths(&at);
        let probes = self.probe_paths(path);
        let found = look_for(&probes);
        let detected = types_found(&found);
        proof {
            let exp = nested_text(expanded@);
            assert forall|i: int| 0 <= i < exp.len() implies #[trigger] exp[i].len() == session_paths(
                self.custom_sessions@[i],
            ).len() by {
                assert(exp[i] == session_expansions(self.custom_sessions@, at)[i]);
            }
        }
        let pick = self.choose_session(path, &expanded, &detected);
        let r = match pick {
            Some(i) => Some(&self.custom_sessions[i]),
            None => match &self.default_session {
                Some(d) => Some(d),
                None => None,
            },
        };
        proof {
            assert(answers_probes(flag_rows(found@), probes_spec(self.project_types@, path@)));
        }
        r
    }
}

/// A session lists a found project type when some entry of its types list,
/// at any place in the list, is the name of a project type that was found.
pub open spec fn lists_found_type(
    s: Session,
    project_types: Seq<ProjectType>,
    detected: Seq<bool>,
) -> bool {
    s.types matches Some(t) && exists|a: int, k: int|
        0 <= a < t@.len() && 0 <= k < project_types.len() && 0 <= k < detected.len() && detected[k]
            && #[trigger] t@[a]@ == #[trigger] project_types[k].name@
}

/// Where no session path names `path` itself, and session `i` lists a
/// project type found at `path` (in any place of its types list), a custom
/// session is chosen: session `i` or one before it, which also lists a found
/// type.
pub proof fn lemma_any_listed_type_matches(
    sessions: Seq<Session>,
    exp: Seq<Seq<Seq<char>>>,
    path: Seq<char>,
    project_types: Seq<ProjectType>,
    detected: Seq<bool>,
    i: int,
)
    requires
        fits_sessions(sessions, exp),
        detected.len() == project_types.len(),
        forall|j: int, q: int|
            0 <= j < exp.len() && 0 <= q < exp[j].len() ==> !same_path(#[trigger] exp[j][q], path),
        0 <= i < sessions.len(),
        lists_found_type(sessions[i], project_types, detected),
    ensures
        pick_session(sessions, exp, path, project_types, detected) matches Some(j) && 0 <= j <= i
            && lists_found_type(sessions[j], project_types, detected),
{
    lemma_session_precedence(sessions, exp, path, project_types, detected);
    let n = sessions.len() as int;
    assert forall|j: int| 0 <= j < n implies !exact_hit(#[trigger] exp[j], path) by {
        if exact_hit(exp[j], path) {
            let q = choose|q: int| 0 <= q < exp[j].len() && same_path(#[trigger] exp[j][q], path);
            assert(!same_path(exp[j][q], path));
        }
    }
    let t = sessions[i].types->0;
    let (a, k) = choose|a: int, k: int|
        0 <= a < t@.len() && 0 <= k < project_types.len() && 0 <= k < detected.len() && detected[k]
            && #[trigger] t@[a]@ == #[trigger] project_types[k].name@;
    assert(session_types(sessions[i]) == t@);
    assert(project_types[k].name@ == session_types(sessions[i])[a]@);
    assert(type_hit(session_types(sessions[i]), project_types, detected));
    let pick = pick_session(sessions, exp, path, project_types, detected);
    let j = pick->0;
    if j > i {
        assert(!type_hit(session_types(sessions[i]), project_types, detected));
    }
    assert(type_hit(session_types(sessions[j]), project_types, detected));
    let (b, m) = choose|b: int, m: int|
        0 <= b < session_types(sessions[j]).len() && 0 <= m < project_types.len() && detected[m]
            && #[trigger] project_types[m].name@ == #[trigger] session_types(sessions[j])[b]@;
    assert(sessions[j].types is Some);
    assert(sessions[j].types->0@[b]@ == project_types[m].name@);
}

/// Where no session path names `path` or lies above it, a custom session is
/// chosen exactly when some session lists a project type found at `path`,
/// and the one chosen lists one.
pub proof fn lemma_type_match_decides(
    sessions: Seq<Session>,
    exp: Seq<Seq<Seq<char>>>,
    path: Seq<char>,
    project_types: Seq<ProjectType>,
    detected: Seq<bool>,
)
    requires
        fits_sessions(sessions, exp),
        detected.len() == project_types.len(),
        forall|j: int, q: int|
            0 <= j < exp.len() && 0 <= q < exp[j].len() ==> !under(path, #[trigger] exp[j][q]),
    ensures
        pick_session(sessions, exp, path, project_types, detected) is Some <==> exists|i: int|
            0 <= i < sessions.len() && lists_found_type(#[trigger] sessions[i], project_types, detected),
        pick_session(sessions, exp, path, project_types, detected) matches Some(j) ==> 0 <= j
            < sessions.len() && lists_found_type(sessions[j], project_types, detected),
{
    let n = sessions.len() as int;
    assert forall|j: int, q: int|
        0 <= j < exp.len() && 0 <= q < exp[j].len() implies !same_path(#[trigger] exp[j][q], path) by {
        if same_path(exp[j][q], path) {
            assert(components(path).take(components(exp[j][q]).len() as int) =~= components(exp[j][q]));
            assert(under(path, exp[j][q]));
        }
    }
    lemma_closest_session(exp, path);
    if closest_session(exp, path) is Some {
        let c = closest_session(exp, path)->0;
        lemma_prefix_depth(exp[c], path);
        let q = choose|q: int|
            0 <= q < exp[c].len() && under(path, #[trigger] exp[c][q]) && components(exp[c][q]).len()
                == prefix_depth(exp[c], path);
        assert(!under(path, exp[c][q]));
    }
    assert(closest_session(exp, path) is None);
    if exists|i: int| 0 <= i < n && lists_found_type(#[trigger] sessions[i], project_types, detected) {
        let i = choose|i: int| 0 <= i < n && lists_found_type(#[trigger] sessions[i], project_types, detected);
        lemma_any_listed_type_matches(sessions, exp, path, project_types, detected, i);
    } else {
        lemma_session_precedence(sessions, exp, path, project_types, detected);
        assert forall|j: int| 0 <= j < n implies !exact_hit(#[trigger] exp[j], path) by {
            if exact_hit(exp[j], path) {
                let q = choose|q: int| 0 <= q < exp[j].len() && same_path(#[trigger] exp[j][q], path);
                assert(!same_path(exp[j][q], path));
            }
        }
        assert forall|j: int| 0 <= j < n implies !type_hit(
            session_types(#[trigger] sessions[j]),
            project_types,
            detected,
        ) by {
            if type_hit(session_types(sessions[j]), project_types, detected) {
                let (b, m) = choose|b: int, m: int|
                    0 <= b < session_types(sessions[j]).len() && 0 <= m < project_types.len()
                        && detected[m] && #[trigger] project_types[m].name@ == #[trigger] session_types(
                        sessions[j],
                    )[b]@;
                assert(sessions[j].types->0@[b]@ == project_types[m].name@);
                assert(lists_found_type(sessions[j], project_types, detected));
            }
        }
    }
}

/// `first_from` finds the first index in `k..n` where `pred` holds.
pub proof fn lemma_first_from(pred: spec_fn(int) -> bool, k: int, n: int)
    ensures
        first_from(pred, k, n) matches Some(i) ==> k <= i < n && pred(i) && forall|j: int|
            k <= j < i ==> !#[trigger] pred(j),
        first_from(pred, k, n) is None ==> forall|j: int| k <= j < n ==> !#[trigger] pred(j),
    decreases n - k,
{
    if k < n && !pred(k) {
        lemma_first_from(pred, k + 1, n);
        assert forall|j: int| k <= j < n && first_from(pred, k, n) is None implies !#[trigger] pred(j) by {
            if j > k {
            }
        }
    }
}

/// `prefix_depth` is the depth of the deepest of the paths above `path`,
/// and -1 where no path is above it.
pub proof fn lemma_prefix_depth(exp_i: Seq<Seq<char>>, path: Seq<char>)
    ensures
        prefix_depth(exp_i, path) >= -1,
        forall|j: int|
            0 <= j < exp_i.len() && under(path, #[trigger] exp_i[j]) ==> components(
                exp_i[j],
            ).len() <= prefix_depth(exp_i, path),
        prefix_depth(exp_i, path) >= 0 ==> exists|j: int|
            0 <= j < exp_i.len() && under(path, #[trigger] exp_i[j]) && components(exp_i[j]).len()
                == prefix_depth(exp_i, path),
        prefix_depth(exp_i, path) == -1 ==> forall|j: int|
            0 <= j < exp_i.len() ==> !under(path, #[trigger] exp_i[j]),
    decreases exp_i.len(),
{
    if exp_i.len() > 0 {
        let pre = exp_i.drop_last();
        lemma_prefix_depth(pre, path);
        let d = prefix_depth(pre, path);
        let e = exp_i.last();
        assert forall|j: int| 0 <= j < pre.len() implies #[trigger] exp_i[j] == pre[j] by {}
        if under(path, e) && components(e).len() > d {
            assert(under(path, exp_i[exp_i.len() - 1]));
        } else if d >= 0 {
            let w = choose|j: int|
                0 <= j < pre.len() && under(path, #[trigger] pre[j]) && components(pre[j]).len()
                    == d;
            assert(exp_i[w] == pre[w]);
        }
    }
}

/// The closest session is the first of those whose deepest path above
/// `path` is deepest; there is none where no session has a path above it.
pub proof fn lemma_closest_session(exp: Seq<Seq<Seq<char>>>, path: Seq<char>)
    ensures
        closest_session(exp, path) matches Some(i) ==> {
            &&& 0 <= i < exp.len()
            &&& prefix_depth(exp[i], path) >= 0
            &&& forall|j: int|
                0 <= j < exp.len() ==> prefix_depth(#[trigger] exp[j], path) <= prefix_depth(
                    exp[i],
                    path,
                )
            &&& forall|j: int|
                0 <= j < i ==> prefix_depth(#[trigger] exp[j], path) < prefix_depth(exp[i], path)
        },
        closest_session(exp, path) is None ==> forall|j: int|
            0 <= j < exp.len() ==> prefix_depth(#[trigger] exp[j], path) < 0,
    decreases exp.len(),
{
    if exp.len() > 0 {
        let pre = exp.drop_last();
        lemma_closest_session(pre, path);
        assert forall|j: int| 0 <= j < pre.len() implies #[trigger] exp[j] == pre[j] by {}
        let prev = closest_session(pre, path);
        let d = prefix_depth(exp.last(), path);
        if d >= 0 && (prev is None || d > prefix_depth(exp[prev->0], path)) {
            if prev is Some {
                assert(pre[prev->0] == exp[prev->0]);
            }
            assert forall|j: int| 0 <= j < exp.len() implies prefix_depth(#[trigger] exp[j], path)
                <= d by {
                if j < exp.len() - 1 {
                    assert(exp[j] == pre[j]);
                }
            }
        } else {
            if prev is Some {
                assert(pre[prev->0] == exp[prev->0]);
            }
        }
    }
}

/// The order in which a project's session is chosen: a custom session
/// with a path equal to the project's comes first (the first such); then a
/// custom session of a project type found in the project (the first such);
/// then the custom session whose path holds the project most closely (the
/// deepest path above it, the first session on ties); where none of these
/// applies, no custom session is chosen and the default session is used.
pub proof fn lemma_session_precedence(
    sessions: Seq<Session>,
    exp: Seq<Seq<Seq<char>>>,
    path: Seq<char>,
    project_types: Seq<ProjectType>,
    detected: Seq<bool>,
)
    requires
        fits_sessions(sessions, exp),
    ensures
        ({
            let pick = pick_session(sessions, exp, path, project_types, detected);
            let n = sessions.len() as int;
            &&& (exists|i: int| 0 <= i < n && exact_hit(#[trigger] exp[i], path)) ==> (pick matches Some(
                i,
            ) && 0 <= i < n && exact_hit(exp[i], path) && forall|j: int|
                0 <= j < i ==> !exact_hit(#[trigger] exp[j], path))
            &&& (forall|i: int| 0 <= i < n ==> !exact_hit(#[trigger] exp[i], path)) && (exists|i: int|
                0 <= i < n && type_hit(
                    session_types(#[trigger] sessions[i]),
                    project_types,
                    detected,
                )) ==> (pick matches Some(i) && 0 <= i < n && type_hit(
                session_types(sessions[i]),
                project_types,
                detected,
            ) && forall|j: int|
                0 <= j < i ==> !type_hit(session_types(#[trigger] sessions[j]), project_types, detected))
            &&& (forall|i: int| 0 <= i < n ==> !exact_hit(#[trigger] exp[i], path)) && (forall|i: int|
                0 <= i < n ==> !type_hit(
                    session_types(#[trigger] sessions[i]),
                    project_types,
                    detected,
                )) ==> pick == closest_session(exp, path)
        }),
{
    let n = sessions.len() as int;
    let pe = exact_pred(exp, path);
    let pt = type_pred(sessions, project_types, detected);
    lemma_first_from(pe, 0, n);
    lemma_first_from(pt, 0, n);
    let pick = pick_session(sessions, exp, path, project_types, detected);
    match first_from(pe, 0, n) {
        Some(i) => {
            assert(pick == Some(i));
            assert(exact_hit(exp[i], path));
            assert forall|j: int| 0 <= j < i implies !exact_hit(#[trigger] exp[j], path) by {
                assert(!pe(j));
            }
        },
        None => {
            assert forall|i: int| 0 <= i < n implies !exact_hit(#[trigger] exp[i], path) by {
                assert(!pe(i));
            }
            match first_from(pt, 0, n) {
                Some(i) => {
                    assert(pick == Some(i));
                    assert(type_hit(session_types(sessions[i]), project_types, detected));
                    assert forall|j: int| 0 <= j < i implies !type_hit(
                        session_types(#[trigger] sessions[j]),
                        project_types,
                        detected,
                    ) by {
                        assert(!pt(j));
                    }
                },
                None => {
                    assert forall|i: int| 0 <= i < n implies !type_hit(
                        session_types(#[trigger] sessions[i]),
                        project_types,
                        detected,
                    ) by {
                        assert(!pt(i));
                    }
                    assert(pick == closest_session(exp, path));
                },
            }
        },
    }
}

} // verus!
