//! Paths as text, with the meaning that `std::path::Path` gives them on
//! Unix: a path is read as its sequence of components, so that `a//b/`,
//! `a/./b` and `a/b` are the same path.
use vstd::prelude::*;
use crate::text::{chars_equal, chars_of, runs, split_runs, string_of, strings_of, Sep};

verus! {

/// The component that stands for the root directory.
pub open spec fn root_component() -> Seq<char> {
    seq!['/']
}

/// The component that stands for a leading `.`.
pub open spec fn cur_component() -> Seq<char> {
    seq!['.']
}

/// The component `..`.
pub open spec fn parent_component() -> Seq<char> {
    seq!['.', '.']
}

/// `parts` without its `.` entries.
pub open spec fn drop_cur(parts: Seq<Seq<char>>) -> Seq<Seq<char>>
    decreases parts.len(),
{
    if parts.len() == 0 {
        Seq::empty()
    } else {
        let p = drop_cur(parts.drop_last());
        if parts.last() == cur_component() {
            p
        } else {
            p.push(parts.last())
        }
    }
}

/// Whether `s` opens with the current directory: it is `.` or starts with `./`.
pub open spec fn opens_with_cur(s: Seq<char>) -> bool {
    s.len() > 0 && s[0] == '.' && (s.len() == 1 || s[1] == '/')
}

/// The components of the path `s` (`Path::components`): the root, if `s`
/// starts with `/`; else a leading `.`, if `s` opens with one; then every
/// non-empty piece between slashes other than `.`.
pub open spec fn components(s: Seq<char>) -> Seq<Seq<char>> {
    let body = drop_cur(runs(Sep::Slash, s));
    if s.len() > 0 && s[0] == '/' {
        seq![root_component()] + body
    } else if opens_with_cur(s) {
        seq![cur_component()] + body
    } else {
        body
    }
}

/// Whether `a` is a prefix of `b`.
pub open spec fn is_prefix_of<T>(a: Seq<T>, b: Seq<T>) -> bool {
    a.len() <= b.len() && b.take(a.len() as int) == a
}

/// Whether the paths `a` and `b` are equal as `Path`s are (`==` on `Path`).
pub open spec fn same_path(a: Seq<char>, b: Seq<char>) -> bool {
    components(a) == components(b)
}

/// Whether `path` lies at or below `base` (`Path::starts_with`).
pub open spec fn under(path: Seq<char>, base: Seq<char>) -> bool {
    is_prefix_of(components(base), components(path))
}

/// The views of a vector of character vectors.
pub open spec fn parts_view(v: Seq<Vec<char>>) -> Seq<Seq<char>> {
    v.map_values(|w: Vec<char>| w@)
}

/// Whether the parts `a` are a prefix of the parts `b`.
pub fn parts_prefix(a: &Vec<Vec<char>>, b: &Vec<Vec<char>>) -> (r: bool)
    ensures
        r == is_prefix_of(parts_view(a@), parts_view(b@)),
{
    if a.len() > b.len() {
        return false;
    }
    let mut i: usize = 0;
    while i < a.len()
        invariant
            i <= a.len() <= b.len(),
            forall|k: int| 0 <= k < i ==> a@[k]@ == b@[k]@,
        decreases a.len() - i,
    {
        if !chars_equal(&a[i], &b[i]) {
            assert(parts_view(b@).take(a.len() as int)[i as int] == b@[i as int]@);
            assert(parts_view(a@)[i as int] == a@[i as int]@);
            return false;
        }
        i = i + 1;
    }
    assert(parts_view(b@).take(a.len() as int) =~= parts_view(a@));
    true
}

fn drop_cur_parts(parts: Vec<Vec<char>>) -> (out: Vec<Vec<char>>)
    ensures
        parts_view(out@) == drop_cur(parts_view(parts@)),
{
    let mut out: Vec<Vec<char>> = Vec::new();
    let n = parts.len();
    let mut i: usize = 0;
    while i < n
        invariant
            i <= n,
            n == parts.len(),
            parts_view(out@) == drop_cur(parts_view(parts@).take(i as int)),
        decreases n - i,
    {
        let p = parts[i].clone();
        let ghost pre = parts_view(parts@).take(i as int);
        let ghost cur = parts_view(parts@).take(i + 1);
        assert(cur.drop_last() =~= pre);
        assert(cur.last() == p@);
        let is_dot = p.len() == 1 && p[0] == '.';
        assert(is_dot == (p@ == cur_component())) by {
            if p@ == cur_component() {
                assert(p@[0] == '.');
            }
            if is_dot {
                assert(p@ =~= cur_component());
            }
        }
        if !is_dot {
            let ghost before = out@;
            out.push(p);
            assert(parts_view(out@) =~= parts_view(before).push(p@));
        }
        i = i + 1;
    }
    assert(parts_view(parts@).take(n as int) =~= parts_view(parts@));
    out
}

/// The components of the path `s`, as character vectors.
pub fn components_of(s: &str) -> (out: Vec<Vec<char>>)
    ensures
        parts_view(out@) == components(s@),
{
    let v = chars_of(s);
    let pieces = split_runs(Sep::Slash, &v);
    assert(parts_view(pieces@) == runs(Sep::Slash, s@));
    let body = drop_cur_parts(pieces);
    let n = v.len();
    let lead: Option<char> = if n > 0 && v[0] == '/' {
        Some('/')
    } else if n > 0 && v[0] == '.' && (n == 1 || v[1] == '/') {
        Some('.')
    } else {
        None
    };
    match lead {
        None => body,
        Some(c) => {
            let mut first: Vec<char> = Vec::new();
            first.push(c);
            let mut out: Vec<Vec<char>> = Vec::new();
            out.push(first);
            let ghost b = body@;
            let mut body = body;
            out.append(&mut body);
            assert(parts_view(out@) =~= seq![seq![c]] + parts_view(b));
            assert(seq![c] =~= root_component() || seq![c] =~= cur_component());
            out
        },
    }
}

/// Whether `a` and `b` name the same path (`==` on `Path`).
pub fn paths_equal(a: &str, b: &str) -> (r: bool)
    ensures
        r == same_path(a@, b@),
{
    let ca = components_of(a);
    let cb = components_of(b);
    let r = ca.len() == cb.len() && parts_prefix(&ca, &cb);
    proof {
        if ca.len() == cb.len() && is_prefix_of(parts_view(ca@), parts_view(cb@)) {
            assert(parts_view(cb@).take(ca.len() as int) =~= parts_view(cb@));
        }
        if components(a@) == components(b@) {
            assert(parts_view(ca@).len() == ca.len());
            assert(parts_view(cb@).take(ca.len() as int) =~= parts_view(cb@));
        }
    }
    r
}

/// Whether `path` lies at or below `base` (`Path::starts_with`).
pub fn path_starts_with(path: &str, base: &str) -> (r: bool)
    ensures
        r == under(path@, base@),
{
    let cp = components_of(path);
    let cb = components_of(base);
    parts_prefix(&cb, &cp)
}

/// The number of components of `path`.
pub fn component_count(path: &str) -> (r: usize)
    ensures
        r == components(path@).len(),
{
    components_of(path).len()
}

/// The final component of `s`, where it is a name (`Path::file_name`):
/// `None` where there is none, or it is the root, a leading `.`, or `..`.
pub open spec fn file_name_spec(s: Seq<char>) -> Option<Seq<char>> {
    let c = components(s);
    if c.len() > 0 && c.last() != root_component() && c.last() != cur_component() && c.last()
        != parent_component() {
        Some(c.last())
    } else {
        None
    }
}

/// The final component of `path` (`Path::file_name`).
pub fn file_name(path: &str) -> (r: Option<String>)
    ensures
        r matches Some(x) ==> file_name_spec(path@) == Some(x@),
        r is None ==> file_name_spec(path@) is None,
{
    let c = components_of(path);
    let n = c.len();
    if n == 0 {
        return None;
    }
    let last = &c[n - 1];
    assert(parts_view(c@).last() == last@);
    let is_root = last.len() == 1 && last[0] == '/';
    let is_cur = last.len() == 1 && last[0] == '.';
    let is_parent = last.len() == 2 && last[0] == '.' && last[1] == '.';
    proof {
        if last@ == root_component() {
            assert(last@[0] == '/');
        }
        if last@ == cur_component() {
            assert(last@[0] == '.');
        }
        if last@ == parent_component() {
            assert(last@[0] == '.' && last@[1] == '.');
        }
        if is_root {
            assert(last@ =~= root_component());
        }
        if is_cur {
            assert(last@ =~= cur_component());
        }
        if is_parent {
            assert(last@ =~= parent_component());
        }
    }
    if is_root || is_cur || is_parent {
        None
    } else {
        Some(string_of(last))
    }
}

/// `base` joined with `rel` (`Path::join` on Unix): `rel` itself where it is
/// absolute; else `rel` after `base`, with a `/` between them where `base` is
/// non-empty and does not end in one.
pub open spec fn join_spec(base: Seq<char>, rel: Seq<char>) -> Seq<char> {
    if rel.len() > 0 && rel[0] == '/' {
        rel
    } else if base.len() == 0 || base.last() == '/' {
        base + rel
    } else {
        base + seq!['/'] + rel
    }
}

/// `base` joined with `rel` (`Path::join`).
pub fn join(base: &str, rel: &str) -> (r: String)
    ensures
        r@ == join_spec(base@, rel@),
{
    let b = chars_of(base);
    let r = chars_of(rel);
    if r.len() > 0 && r[0] == '/' {
        return string_of(&r);
    }
    let mut out = b.clone();
    if b.len() > 0 && b[b.len() - 1] != '/' {
        out.push('/');
    }
    let ghost mid = out@;
    let mut i: usize = 0;
    while i < r.len()
        invariant
            i <= r.len(),
            out@ == mid + r@.take(i as int),
        decreases r.len() - i,
    {
        out.push(r[i]);
        assert(r@.take(i + 1) =~= r@.take(i as int).push(r@[i as int]));
        i = i + 1;
    }
    assert(r@.take(r.len() as int) =~= r@);
    proof {
        if b.len() > 0 && b@.last() != '/' {
            assert(mid =~= b@ + seq!['/']);
        } else {
            assert(mid =~= b@);
        }
    }
    string_of(&out)
}

/// The components of a path, as strings.
pub fn component_strings(path: &str) -> (out: Vec<String>)
    ensures
        out@.map_values(|x: String| x@) == components(path@),
{
    let c = components_of(path);
    strings_of(&c)
}

} // verus!
