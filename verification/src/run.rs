//! Project discovery rules and the confirmation prompt's answer.
//!
//! A directory walk visits every directory below the search directories;
//! `ScanRules::visit` decides, for each entry, whether to ignore it, prune
//! it, descend into it, or look for a `.git` in it; `record_project` keeps
//! the list of projects free of repeats.
use vstd::prelude::*;
use crate::config::{expand_path_in, expanded_at, readable, Folders, Locations};
use crate::path::{components, join, join_spec, path_starts_with, paths_equal, same_path, under};
use crate::text::{ascii_lower, chars_of, text_of, trim, trim_bounds};

verus! {

/// The length of `s` in bytes, as `str::len` reports it (`OsStr::len` on
/// the same path): the length of its UTF-8 encoding.
pub open spec fn byte_len(s: Seq<char>) -> nat {
    (vstd::utf8::encode_utf8(s).len() as usize) as nat
}

/// The byte length of the longest of `rules` above `path`, or 0 where none is.
pub open spec fn longest_rule(rules: Seq<Seq<char>>, path: Seq<char>) -> nat
    decreases rules.len(),
{
    if rules.len() == 0 {
        0
    } else {
        let d = longest_rule(rules.drop_last(), path);
        let e = rules.last();
        if under(path, e) && byte_len(e) > d {
            byte_len(e)
        } else {
            d
        }
    }
}

/// Whether `path` is excluded: the longest exclude rule above it is longer
/// than every search directory above it. An exclude rule counts only where
/// it is non-empty; a search directory as long as the exclude rule wins.
pub open spec fn excluded(
    search_dirs: Seq<Seq<char>>,
    exclude_paths: Seq<Seq<char>>,
    path: Seq<char>,
) -> bool {
    let d = longest_rule(exclude_paths, path);
    d > 0 && forall|j: int|
        0 <= j < search_dirs.len() ==> !(under(path, #[trigger] search_dirs[j]) && byte_len(
            search_dirs[j],
        ) >= d)
}

/// What the directory walk does with an entry.
#[derive(Clone, Copy, Debug, PartialEq, Eq, Structural)]
pub enum Visit {
    /// Not a directory: pass over it.
    Ignore,
    /// Walk on into the directory: an excluded one above a search
    /// directory, or a probed one without `.git`.
    Descend,
    /// An excluded directory: do not walk into it.
    Prune,
    /// A directory that is not excluded: it is a project if it holds `.git`.
    Probe,
}

/// A rule of non-zero length counts for `path` only where `path` lies at or
/// below it.
proof fn lemma_longest_rule_is_above(rules: Seq<Seq<char>>, path: Seq<char>)
    ensures
        longest_rule(rules, path) > 0 ==> exists|j: int|
            0 <= j < rules.len() && under(path, #[trigger] rules[j]),
    decreases rules.len(),
{
    if rules.len() > 0 {
        let pre = rules.drop_last();
        lemma_longest_rule_is_above(pre, path);
        if longest_rule(pre, path) > 0 && longest_rule(rules, path) == longest_rule(pre, path) {
            let j = choose|j: int| 0 <= j < pre.len() && under(path, #[trigger] pre[j]);
            assert(rules[j] == pre[j]);
        } else if longest_rule(rules, path) > 0 {
            assert(under(path, rules[rules.len() - 1]));
        }
    }
}

/// A path is excluded only by an exclude rule whose components begin the
/// path's components (as `Path::starts_with` compares paths): a rule that
/// merely begins the path's text, as `/w/old` begins `/w/older`, excludes
/// nothing.
pub proof fn lemma_exclusion_needs_a_rule_above(
    search_dirs: Seq<Seq<char>>,
    exclude_paths: Seq<Seq<char>>,
    path: Seq<char>,
)
    ensures
        excluded(search_dirs, exclude_paths, path) ==> exists|j: int|
            0 <= j < exclude_paths.len() && components(#[trigger] exclude_paths[j]).len() <= components(
                path,
            ).len() && components(path).take(components(exclude_paths[j]).len() as int) == components(
                exclude_paths[j],
            ),
{
    lemma_longest_rule_is_above(exclude_paths, path);
}

/// Every rule that `path` lies at or below counts: the longest rule above
/// `path` is at least as long as each of them.
proof fn lemma_longest_rule_covers(rules: Seq<Seq<char>>, path: Seq<char>, j: int)
    requires
        0 <= j < rules.len(),
        under(path, rules[j]),
    ensures
        longest_rule(rules, path) >= byte_len(rules[j]),
    decreases rules.len(),
{
    if j < rules.len() - 1 {
        let pre = rules.drop_last();
        assert(pre[j] == rules[j]);
        lemma_longest_rule_covers(pre, path, j);
    }
}

/// A path at or below a non-empty exclude rule, and below no search
/// directory, is excluded.
pub proof fn lemma_rule_above_excludes(
    search_dirs: Seq<Seq<char>>,
    exclude_paths: Seq<Seq<char>>,
    path: Seq<char>,
    j: int,
)
    requires
        0 <= j < exclude_paths.len(),
        byte_len(exclude_paths[j]) > 0,
        under(path, exclude_paths[j]),
        forall|k: int| 0 <= k < search_dirs.len() ==> !under(path, #[trigger] search_dirs[k]),
    ensures
        excluded(search_dirs, exclude_paths, path),
{
    lemma_longest_rule_covers(exclude_paths, path, j);
}

/// What the walk does with the entry `path`.
pub open spec fn visit_spec(
    search_dirs: Seq<Seq<char>>,
    exclude_paths: Seq<Seq<char>>,
    path: Seq<char>,
    is_dir: bool,
) -> Visit {
    if !is_dir {
        Visit::Ignore
    } else if excluded(search_dirs, exclude_paths, path) {
        if exists|j: int| 0 <= j < search_dirs.len() && under(#[trigger] search_dirs[j], path) {
            Visit::Descend
        } else {
            Visit::Prune
        }
    } else {
        Visit::Probe
    }
}

/// The walk never prunes a directory above a search directory, and walks
/// into every directory that no exclude rule shuts out.
pub proof fn lemma_walk_reaches_search_dirs(
    search_dirs: Seq<Seq<char>>,
    exclude_paths: Seq<Seq<char>>,
    path: Seq<char>,
)
    ensures
        (exists|j: int| 0 <= j < search_dirs.len() && under(#[trigger] search_dirs[j], path))
            ==> visit_spec(search_dirs, exclude_paths, path, true) != Visit::Prune,
        !excluded(search_dirs, exclude_paths, path) ==> visit_spec(
            search_dirs,
            exclude_paths,
            path,
            true,
        ) == Visit::Probe,
{
}

/// The folders of the configuration, each path expanded (`expand_path_in`).
pub struct ScanRules {
    pub search_dirs: Vec<String>,
    pub exclude_paths: Vec<String>,
    pub force_include: Vec<String>,
}

/// The expansion of each of `v`, at the locations `at`, in order.
pub open spec fn expansions_at(v: Seq<String>, at: Locations) -> Seq<Seq<char>> {
    v.map_values(|p: String| expanded_at(p@, at))
}

fn expand_all(v: &Vec<String>, at: &Locations) -> (r: Vec<String>)
    ensures
        text_of(r@) == expansions_at(v@, *at),
{
    let mut r: Vec<String> = Vec::new();
    let mut i: usize = 0;
    while i < v.len()
        invariant
            i <= v.len(),
            r.len() == i,
            forall|k: int| 0 <= k < i ==> #[trigger] r@[k]@ == expanded_at(v@[k]@, *at),
        decreases v.len() - i,
    {
        r.push(expand_path_in(v[i].as_str(), at));
        i = i + 1;
    }
    assert(text_of(r@) =~= expansions_at(v@, *at));
    r
}

/// The strings of `v`, or none.
pub open spec fn listed(v: Option<Vec<String>>) -> Seq<String> {
    match v {
        Some(x) => x@,
        None => Seq::empty(),
    }
}

fn expand_listed(v: &Option<Vec<String>>, at: &Locations) -> (r: Vec<String>)
    ensures
        text_of(r@) == expansions_at(listed(*v), *at),
{
    match v {
        Some(x) => expand_all(x, at),
        None => {
            let r: Vec<String> = Vec::new();
            assert(text_of(r@) =~= expansions_at(listed(*v), *at));
            r
        },
    }
}

/// The rules made from `folders` at the locations `at`: each list
/// expanded there, a missing list empty.
pub open spec fn rules_at(r: ScanRules, folders: Folders, at: Locations) -> bool {
    &&& text_of(r.search_dirs@) == expansions_at(folders.search_dirs@, at)
    &&& text_of(r.exclude_paths@) == expansions_at(listed(folders.exclude_paths), at)
    &&& text_of(r.force_include@) == expansions_at(listed(folders.force_include), at)
}

impl ScanRules {
    /// The search directories, exclude paths and forced projects of
    /// `folders`, each expanded at the locations `at`; a missing list is
    /// empty.
    pub fn from_folders_at(folders: &Folders, at: &Locations) -> (r: Self)
        ensures
            rules_at(r, *folders, *at),
    {
        ScanRules {
            search_dirs: expand_all(&folders.search_dirs, at),
            exclude_paths: expand_listed(&folders.exclude_paths, at),
            force_include: expand_listed(&folders.force_include, at),
        }
    }

    /// The search directories, exclude paths and forced projects of
    /// `folders`, each expanded with the home and current directory, which
    /// are read once for all of them; a missing list is empty.
    pub fn from_folders(folders: &Folders) -> (r: Self)
        ensures
            exists|at: Locations| readable(at) && rules_at(r, *folders, at),
    {
        let at = Locations::read();
        Self::from_folders_at(folders, &at)
    }

    /// Whether `path` is excluded from the walk.
    pub fn is_excluded(&self, path: &str) -> (r: bool)
        ensures
            r == excluded(text_of(self.search_dirs@), text_of(self.exclude_paths@), path@),
    {
        let ghost ex = text_of(self.exclude_paths@);
        let ghost sd = text_of(self.search_dirs@);
        let mut longest: usize = 0;
        let mut i: usize = 0;
        while i < self.exclude_paths.len()
            invariant
                i <= self.exclude_paths.len(),
                ex == text_of(self.exclude_paths@),
                longest == longest_rule(ex.take(i as int), path@),
            decreases self.exclude_paths.len() - i,
        {
            let ghost pre = ex.take(i as int);
            let ghost cur = ex.take(i + 1);
            assert(cur.drop_last() =~= pre);
            assert(cur.last() == self.exclude_paths@[i as int]@);
            let e = self.exclude_paths[i].as_str();
            if path_starts_with(path, e) && e.len() > longest {
                longest = e.len();
            }
            i = i + 1;
        }
        assert(ex.take(self.exclude_paths.len() as int) =~= ex);
        if longest == 0 {
            return false;
        }
        let mut j: usize = 0;
        while j < self.search_dirs.len()
            invariant
                j <= self.search_dirs.len(),
                sd == text_of(self.search_dirs@),
                ex == text_of(self.exclude_paths@),
                longest == longest_rule(ex, path@),
                forall|k: int|
                    0 <= k < j ==> !(under(path@, #[trigger] sd[k]) && byte_len(sd[k]) >= longest),
            decreases self.search_dirs.len() - j,
        {
            let s = self.search_dirs[j].as_str();
            assert(sd[j as int] == s@);
            if path_starts_with(path, s) && s.len() >= longest {
                assert(under(path@, sd[j as int]) && byte_len(sd[j as int]) >= longest);
                return false;
            }
            j = j + 1;
        }
        true
    }

    /// What the walk does with the entry `path`, a directory or not.
    pub fn visit(&self, path: &str, is_dir: bool) -> (r: Visit)
        ensures
            r == visit_spec(
                text_of(self.search_dirs@),
                text_of(self.exclude_paths@),
                path@,
                is_dir,
            ),
    {
        if !is_dir {
            return Visit::Ignore;
        }
        if !self.is_excluded(path) {
            return Visit::Probe;
        }
        let ghost sd = text_of(self.search_dirs@);
        let mut j: usize = 0;
        while j < self.search_dirs.len()
            invariant
                j <= self.search_dirs.len(),
                sd == text_of(self.search_dirs@),
                forall|k: int| 0 <= k < j ==> !under(#[trigger] sd[k], path@),
                excluded(sd, text_of(self.exclude_paths@), path@),
                is_dir,
            decreases self.search_dirs.len() - j,
        {
            assert(sd[j as int] == self.search_dirs@[j as int]@);
            if path_starts_with(self.search_dirs[j].as_str(), path) {
                assert(under(sd[j as int], path@));
                return Visit::Descend;
            }
            j = j + 1;
        }
        Visit::Prune
    }
}

/// Where a project's repository marker would be: `path` joined with `.git`.
pub fn git_marker(path: &str) -> (r: String)
    ensures
        r@ == join_spec(path@, ".git"@),
{
    join(path, ".git")
}

/// `projects` with `path` added at the end, unless a path equal to it is
/// there already.
pub open spec fn recorded(projects: Seq<Seq<char>>, path: Seq<char>) -> Seq<Seq<char>> {
    if exists|k: int| 0 <= k < projects.len() && same_path(#[trigger] projects[k], path) {
        projects
    } else {
        projects.push(path)
    }
}

/// No two of `projects` are the same path.
pub open spec fn distinct_paths(projects: Seq<Seq<char>>) -> bool {
    forall|i: int, j: int|
        0 <= i < j < projects.len() ==> !same_path(#[trigger] projects[i], #[trigger] projects[j])
}

/// Adds `path` to `projects` unless the same path is there already; says
/// whether it was added.
pub fn record_project(projects: &mut Vec<String>, path: String) -> (added: bool)
    ensures
        text_of(final(projects)@) == recorded(text_of(old(projects)@), path@),
        added == (text_of(final(projects)@).len() > text_of(old(projects)@).len()),
{
    let ghost before = text_of(projects@);
    let mut k: usize = 0;
    while k < projects.len()
        invariant
            k <= projects.len(),
            before == text_of(projects@),
            forall|q: int| 0 <= q < k ==> !same_path(#[trigger] before[q], path@),
        decreases projects.len() - k,
    {
        assert(before[k as int] == projects@[k as int]@);
        if paths_equal(projects[k].as_str(), path.as_str()) {
            return false;
        }
        k = k + 1;
    }
    let ghost p = path@;
    projects.push(path);
    assert(text_of(projects@) =~= before.push(p));
    true
}

/// What the walk does with a probed directory `path`, once it is known
/// whether it holds `.git` (`has_marker`): one that does is recorded as a
/// project and not walked into; one that does not is walked into, and the
/// projects stay as they are.
pub fn settle_probe(projects: &mut Vec<String>, path: String, has_marker: bool) -> (r: Visit)
    ensures
        has_marker ==> r == Visit::Prune && text_of(final(projects)@) == recorded(
            text_of(old(projects)@),
            path@,
        ),
        !has_marker ==> r == Visit::Descend && final(projects)@ == old(projects)@,
{
    if has_marker {
        record_project(projects, path);
        Visit::Prune
    } else {
        Visit::Descend
    }
}

/// Recording keeps a list of projects free of repeats.
pub proof fn lemma_recorded_distinct(projects: Seq<Seq<char>>, path: Seq<char>)
    requires
        distinct_paths(projects),
    ensures
        distinct_paths(recorded(projects, path)),
{
    let r = recorded(projects, path);
    if !(exists|k: int| 0 <= k < projects.len() && same_path(#[trigger] projects[k], path)) {
        assert forall|i: int, j: int| 0 <= i < j < r.len() implies !same_path(
            #[trigger] r[i],
            #[trigger] r[j],
        ) by {
            if j == projects.len() {
                assert(r[i] == projects[i]);
                assert(r[j] == path);
                assert(!same_path(projects[i], path));
            } else {
                assert(r[i] == projects[i] && r[j] == projects[j]);
            }
        }
    }
}

/// Recording a path a second time changes nothing.
pub proof fn lemma_recorded_idempotent(projects: Seq<Seq<char>>, path: Seq<char>)
    ensures
        recorded(recorded(projects, path), path) == recorded(projects, path),
{
    let r = recorded(projects, path);
    if !(exists|k: int| 0 <= k < projects.len() && same_path(#[trigger] projects[k], path)) {
        assert(r[projects.len() as int] == path);
        assert(same_path(r[projects.len() as int], path));
    }
}

/// Every recorded list holds the path just recorded.
pub proof fn lemma_recorded_holds(projects: Seq<Seq<char>>, path: Seq<char>)
    ensures
        exists|k: int|
            0 <= k < recorded(projects, path).len() && same_path(
                #[trigger] recorded(projects, path)[k],
                path,
            ),
{
    let r = recorded(projects, path);
    if !(exists|k: int| 0 <= k < projects.len() && same_path(#[trigger] projects[k], path)) {
        assert(r[projects.len() as int] == path);
        assert(same_path(r[projects.len() as int], path));
    }
}

/// Whether an answer to the confirmation prompt accepts: after trimming,
/// it is empty, or `y` or `yes` in any mix of cases. (Lowering the answer
/// with `to_lowercase` would decide the same: no character outside ASCII
/// lowers to `y`, `e` or `s`, so comparing ASCII-lowered text suffices.)
pub open spec fn confirm_spec(answer: Seq<char>) -> bool {
    let t = trim(answer);
    let l = t.map_values(|c: char| ascii_lower(c));
    t.len() == 0 || l == seq!['y'] || l == seq!['y', 'e', 's']
}

fn lower_is(c: char, want: char) -> (r: bool)
    requires
        'a' <= want && want <= 'z',
    ensures
        r == (ascii_lower(c) == want),
{
    let u = c as u32;
    let w = want as u32;
    u == w || u + 32 == w
}

/// Whether `answer` to `Run "…"? [Y/n]` accepts the command.
pub fn confirm_accepted(answer: &str) -> (r: bool)
    ensures
        r == confirm_spec(answer@),
{
    let v = chars_of(answer);
    let (lo, hi) = trim_bounds(&v);
    let ghost t = trim(answer@);
    let ghost l = t.map_values(|c: char| ascii_lower(c));
    assert(t == v@.subrange(lo as int, hi as int));
    let n = hi - lo;
    if n == 0 {
        return true;
    }
    if n == 1 {
        let r = lower_is(v[lo], 'y');
        assert(l[0] == ascii_lower(v@[lo as int]));
        assert(r ==> l =~= seq!['y']);
        assert(l =~= seq!['y'] ==> l[0] == 'y');
        assert(l != seq!['y', 'e', 's']) by {
            assert(l.len() != 3);
        }
        return r;
    }
    if n == 3 {
        let r = lower_is(v[lo], 'y') && lower_is(v[lo + 1], 'e') && lower_is(v[lo + 2], 's');
        assert(l[0] == ascii_lower(v@[lo as int]));
        assert(l[1] == ascii_lower(v@[lo + 1]));
        assert(l[2] == ascii_lower(v@[lo + 2]));
        assert(r ==> l =~= seq!['y', 'e', 's']);
        assert(l =~= seq!['y', 'e', 's'] ==> l[0] == 'y' && l[1] == 'e' && l[2] == 's');
        assert(l != seq!['y']) by {
            assert(l.len() != 1);
        }
        return r;
    }
    assert(l.len() == n);
    assert(l != seq!['y']) by {
        assert(seq!['y'].len() == 1);
    }
    assert(l != seq!['y', 'e', 's']) by {
        assert(seq!['y', 'e', 's'].len() == 3);
    }
    false
}

} // verus!
