//! File paths as text, with `/` between components, as on Unix.
//!
//! A trailing `/` and a trailing `.` component do not change which component is
//! last; a leading `/` is the root.
use vstd::prelude::*;
use vstd::string::StringExecFns;

use crate::text::{chars_of, string_of};

verus! {

/// The end of `s[..end]` once trailing separators and `.` components are
/// dropped; a leading `/` (the root) and a leading `.` stay.
pub open spec fn trimmed_end(s: Seq<char>, end: int) -> int
    decreases end,
{
    if end <= 1 || end > s.len() {
        end
    } else if s[end - 1] == '/' {
        trimmed_end(s, end - 1)
    } else if s[end - 1] == '.' && s[end - 2] == '/' {
        trimmed_end(s, end - 1)
    } else {
        end
    }
}

/// Where the component that ends at `end` starts: just after the last `/`
/// before `end`, or at 0.
pub open spec fn component_start(s: Seq<char>, end: int) -> int
    decreases end,
{
    if end <= 0 || end > s.len() {
        0
    } else if s[end - 1] == '/' {
        end
    } else {
        component_start(s, end - 1)
    }
}

/// The last component of `s` and where it starts.
pub open spec fn last_component(s: Seq<char>) -> (int, Seq<char>) {
    let end = trimmed_end(s, s.len() as int);
    let start = component_start(s, end);
    (start, s.subrange(start, end))
}

/// A component that names a file or directory, not `.` or `..` or the root.
pub open spec fn is_normal_component(c: Seq<char>) -> bool {
    c.len() > 0 && c != seq!['.'] && c != seq!['.', '.']
}

/// The last component, when it is a name (`Path::file_name`).
pub open spec fn file_name(s: Seq<char>) -> Option<Seq<char>> {
    let (start, c) = last_component(s);
    if is_normal_component(c) {
        Some(c)
    } else {
        None
    }
}

/// The path without its last component (`Path::parent`): `None` for the root
/// and for the empty path.
pub open spec fn parent(s: Seq<char>) -> Option<Seq<char>> {
    let (start, c) = last_component(s);
    if c.len() == 0 {
        None
    } else {
        Some(s.take(trimmed_end(s, start)))
    }
}

/// Where the last `.` in `name` is, if any.
pub open spec fn last_dot(name: Seq<char>, end: int) -> Option<int>
    decreases end,
{
    if end <= 0 || end > name.len() {
        None
    } else if name[end - 1] == '.' {
        Some(end - 1)
    } else {
        last_dot(name, end - 1)
    }
}

/// The file name without its extension (`Path::file_stem`): the part before the
/// last `.`, unless that `.` is the first character.
pub open spec fn file_stem(s: Seq<char>) -> Option<Seq<char>> {
    match file_name(s) {
        None => None,
        Some(name) => match last_dot(name, name.len() as int) {
            Some(k) => if k == 0 {
                Some(name)
            } else {
                Some(name.take(k))
            },
            None => Some(name),
        },
    }
}

/// `part` appended to `base` (`Path::join`): an absolute `part` replaces
/// `base`; otherwise a `/` goes between them unless `base` is empty or already
/// ends with one.
pub open spec fn join(base: Seq<char>, part: Seq<char>) -> Seq<char> {
    if part.len() > 0 && part[0] == '/' {
        part
    } else if base.len() > 0 && base.last() != '/' {
        base + seq!['/'] + part
    } else {
        base + part
    }
}

proof fn lemma_trimmed_end_bounds(s: Seq<char>, end: int)
    requires
        0 <= end <= s.len(),
    ensures
        0 <= trimmed_end(s, end) <= end,
    decreases end,
{
    if end > 1 && (s[end - 1] == '/' || (s[end - 1] == '.' && s[end - 2] == '/')) {
        lemma_trimmed_end_bounds(s, end - 1);
    }
}

proof fn lemma_component_has_no_separator(s: Seq<char>, end: int)
    requires
        0 <= end <= s.len(),
    ensures
        forall|k: int| component_start(s, end) <= k < end ==> s[k] != '/',
    decreases end,
{
    if end > 0 && s[end - 1] != '/' {
        lemma_component_has_no_separator(s, end - 1);
    }
}

proof fn lemma_component_start_at(s: Seq<char>, end: int, m: int)
    requires
        0 <= m <= end <= s.len(),
        forall|k: int| m <= k < end ==> s[k] != '/',
        m == 0 || s[m - 1] == '/',
    ensures
        component_start(s, end) == m,
    decreases end,
{
    if end > m {
        lemma_component_start_at(s, end - 1, m);
    }
}

/// A file name holds no separator.
pub(crate) proof fn lemma_file_name_has_no_separator(s: Seq<char>)
    ensures
        file_name(s) matches Some(name) ==> forall|k: int| 0 <= k < name.len() ==> name[k] != '/',
{
    let end = trimmed_end(s, s.len() as int);
    lemma_trimmed_end_bounds(s, s.len() as int);
    lemma_component_start_bounds(s, end);
    lemma_component_has_no_separator(s, end);
    let start = component_start(s, end);
    assert forall|k: int| 0 <= k < end - start implies s.subrange(start, end)[k] != '/' by {
        assert(s.subrange(start, end)[k] == s[start + k]);
    }
}

proof fn lemma_last_dot_bounds(name: Seq<char>, end: int)
    ensures
        last_dot(name, end) matches Some(k) ==> 0 <= k < end && k < name.len(),
    decreases end,
{
    if end > 0 && end <= name.len() && name[end - 1] != '.' {
        lemma_last_dot_bounds(name, end - 1);
    }
}

/// A file stem is the start of the file name.
pub(crate) proof fn lemma_file_stem_is_prefix(s: Seq<char>)
    ensures
        file_stem(s) matches Some(stem) ==> (file_name(s) matches Some(name) && stem.len()
            <= name.len() && forall|k: int| 0 <= k < stem.len() ==> stem[k] == name[k]),
{
    if let Some(name) = file_name(s) {
        lemma_last_dot_bounds(name, name.len() as int);
    }
}

/// Joining a name that holds no separator and does not end in `/` or `.` gives
/// a path whose file name is that name.
pub(crate) proof fn lemma_file_name_of_join(base: Seq<char>, name: Seq<char>)
    requires
        name.len() >= 3,
        forall|k: int| 0 <= k < name.len() ==> name[k] != '/',
        name.last() != '.',
    ensures
        file_name(join(base, name)) == Some(name),
{
    let q = join(base, name);
    let m = q.len() - name.len();
    assert(q.subrange(m, q.len() as int) =~= name);
    assert(m == 0 || q[m - 1] == '/');
    assert(q.last() == name.last());
    assert(trimmed_end(q, q.len() as int) == q.len());
    assert forall|k: int| m <= k < q.len() implies q[k] != '/' by {
        assert(q[k] == name[k - m]);
    }
    lemma_component_start_at(q, q.len() as int, m);
    assert(name != seq!['.']);
    assert(name != seq!['.', '.']);
}

proof fn lemma_component_start_bounds(s: Seq<char>, end: int)
    requires
        0 <= end <= s.len(),
    ensures
        0 <= component_start(s, end) <= end,
    decreases end,
{
    if end > 0 && s[end - 1] != '/' {
        lemma_component_start_bounds(s, end - 1);
    }
}

fn trimmed_end_of(s: &Vec<char>, end: usize) -> (e: usize)
    requires
        end <= s@.len(),
    ensures
        e == trimmed_end(s@, end as int),
{
    let mut e: usize = end;
    while e > 1 && (s[e - 1] == '/' || (s[e - 1] == '.' && s[e - 2] == '/'))
        invariant
            e <= end <= s@.len(),
            trimmed_end(s@, end as int) == trimmed_end(s@, e as int),
        decreases e,
    {
        e = e - 1;
    }
    e
}

fn component_start_of(s: &Vec<char>, end: usize) -> (start: usize)
    requires
        end <= s@.len(),
    ensures
        start == component_start(s@, end as int),
{
    let mut k: usize = end;
    while k > 0 && s[k - 1] != '/'
        invariant
            k <= end <= s@.len(),
            component_start(s@, end as int) == component_start(s@, k as int),
        decreases k,
    {
        k = k - 1;
    }
    k
}

fn take_chars(s: &Vec<char>, from: usize, to: usize) -> (part: Vec<char>)
    requires
        from <= to <= s@.len(),
    ensures
        part@ == s@.subrange(from as int, to as int),
{
    crate::numeral::slice_of(s, from, to)
}

/// The last component of `path`, when it is a name.
pub fn path_file_name(path: &str) -> (name: Option<String>)
    ensures
        match file_name(path@) {
            Some(n) => name matches Some(v) && v@ == n,
            None => name is None,
        },
{
    let s = chars_of(path);
    let end = trimmed_end_of(&s, s.len());
    proof {
        lemma_trimmed_end_bounds(s@, s@.len() as int);
    }
    let start = component_start_of(&s, end);
    proof {
        lemma_component_start_bounds(s@, end as int);
    }
    let c = take_chars(&s, start, end);
    let n = c.len();
    let dot_only = n == 1 && c[0] == '.';
    let dots = n == 2 && c[0] == '.' && c[1] == '.';
    proof {
        if n == 1 {
            assert(dot_only == (c@ == seq!['.'])) by {
                if c[0] == '.' {
                    assert(c@ =~= seq!['.']);
                }
            }
        }
        if n == 2 {
            assert(dots == (c@ == seq!['.', '.'])) by {
                if c[0] == '.' && c[1] == '.' {
                    assert(c@ =~= seq!['.', '.']);
                }
            }
        }
    }
    if n == 0 || dot_only || dots {
        None
    } else {
        Some(string_of(&c))
    }
}

/// `path` without its last component.
pub fn path_parent(path: &str) -> (up: Option<String>)
    ensures
        match parent(path@) {
            Some(p) => up matches Some(v) && v@ == p,
            None => up is None,
        },
{
    let s = chars_of(path);
    let end = trimmed_end_of(&s, s.len());
    proof {
        lemma_trimmed_end_bounds(s@, s@.len() as int);
    }
    let start = component_start_of(&s, end);
    proof {
        lemma_component_start_bounds(s@, end as int);
    }
    if start == end {
        return None;
    }
    let up_end = trimmed_end_of(&s, start);
    proof {
        lemma_trimmed_end_bounds(s@, start as int);
    }
    let up = take_chars(&s, 0, up_end);
    assert(up@ =~= s@.take(up_end as int));
    Some(string_of(&up))
}

/// The file name of `path` without its extension.
pub fn path_file_stem(path: &str) -> (stem: Option<String>)
    ensures
        match file_stem(path@) {
            Some(n) => stem matches Some(v) && v@ == n,
            None => stem is None,
        },
{
    match path_file_name(path) {
        None => None,
        Some(name) => {
            let c = chars_of(name.as_str());
            let mut k: usize = c.len();
            while k > 0 && c[k - 1] != '.'
                invariant
                    k <= c@.len(),
                    last_dot(c@, c@.len() as int) == last_dot(c@, k as int),
                decreases k,
            {
                k = k - 1;
            }
            if k == 0 || k == 1 {
                Some(name)
            } else {
                let stem = take_chars(&c, 0, k - 1);
                assert(stem@ =~= c@.take(k - 1));
                Some(string_of(&stem))
            }
        },
    }
}

/// `part` appended to `base`.
pub fn path_join(base: &str, part: &str) -> (joined: String)
    ensures
        joined@ == join(base@, part@),
{
    let b = chars_of(base);
    let p = chars_of(part);
    if p.len() > 0 && p[0] == '/' {
        return <String as StringExecFns>::from_str(part);
    }
    let mut joined = <String as StringExecFns>::from_str(base);
    if b.len() > 0 && b[b.len() - 1] != '/' {
        joined.append("/");
        proof {
            reveal_strlit("/");
        }
    }
    joined.append(part);
    joined
}

} // verus!
