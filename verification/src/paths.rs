//! File names and extensions of slash-separated paths (the rules of `std::path::Path`).

use vstd::prelude::*;
use crate::text::{chars_of, opt_view, string_of, text_eq};

verus! {

/// The index of the last `c` in `s`, or -1.
pub open spec fn last_index_of(s: Seq<char>, c: char) -> int
    decreases s.len(),
{
    if s.len() == 0 {
        -1
    } else if s.last() == c {
        s.len() - 1
    } else {
        last_index_of(s.drop_last(), c)
    }
}

pub proof fn lemma_last_index_of(s: Seq<char>, c: char)
    ensures
        -1 <= last_index_of(s, c) < s.len(),
        last_index_of(s, c) >= 0 ==> s[last_index_of(s, c)] == c,
        forall|j: int| last_index_of(s, c) < j < s.len() ==> s[j] != c,
    decreases s.len(),
{
    if s.len() > 0 && s.last() != c {
        lemma_last_index_of(s.drop_last(), c);
        assert forall|j: int| last_index_of(s, c) < j < s.len() implies s[j] != c by {
            if j < s.len() - 1 {
                assert(s.drop_last()[j] == s[j]);
            }
        }
    }
}

/// The last component of a path that names something: separators at the end and "."
/// components are passed over.
pub open spec fn last_component(p: Seq<char>) -> Option<Seq<char>>
    decreases p.len(),
{
    let i = last_index_of(p, '/');
    let seg = p.skip(i + 1);
    if seg.len() > 0 && seg != seq!['.'] {
        Some(seg)
    } else if i < 0 {
        None
    } else {
        proof {
            lemma_last_index_of(p, '/');
        }
        last_component(p.take(i))
    }
}

/// The file name of a path: its last component, unless that is "..".
pub open spec fn file_name_spec(p: Seq<char>) -> Option<Seq<char>> {
    match last_component(p) {
        Some(s) => if s == seq!['.', '.'] {
            None
        } else {
            Some(s)
        },
        None => None,
    }
}

/// The extension of a path: what follows the last "." of its file name, when that dot is not
/// the name's first character.
pub open spec fn extension_spec(p: Seq<char>) -> Option<Seq<char>> {
    match file_name_spec(p) {
        Some(n) => {
            let d = last_index_of(n, '.');
            if d <= 0 {
                None
            } else {
                Some(n.skip(d + 1))
            }
        },
        None => None,
    }
}

fn last_index_before(v: &Vec<char>, end: usize, c: char) -> (r: Option<usize>)
    requires
        end <= v.len(),
    ensures
        match r {
            Some(i) => last_index_of(v@.take(end as int), c) == i,
            None => last_index_of(v@.take(end as int), c) == -1,
        },
{
    let mut k: usize = end;
    while k > 0
        invariant
            k <= end <= v.len(),
            last_index_of(v@.take(end as int), c) == last_index_of(v@.take(k as int), c),
        decreases k,
    {
        assert(v@.take(k as int).drop_last() =~= v@.take(k - 1));
        if v[k - 1] == c {
            return Some(k - 1);
        }
        k = k - 1;
    }
    None
}

/// Whether a component is "." (the current directory), which names nothing.
fn is_dot(seg: &Vec<char>) -> (r: bool)
    ensures
        r == (seg@ == seq!['.']),
{
    if seg.len() == 1 && seg[0] == '.' {
        assert(seg@ =~= seq!['.']);
        true
    } else {
        false
    }
}

/// Whether a component is ".." (the parent directory).
fn is_dot_dot(seg: &Vec<char>) -> (r: bool)
    ensures
        r == (seg@ == seq!['.', '.']),
{
    if seg.len() == 2 && seg[0] == '.' && seg[1] == '.' {
        assert(seg@ =~= seq!['.', '.']);
        true
    } else {
        false
    }
}

/// The component that ends at `end`, and the separator before it, if any.
fn component_before(v: &Vec<char>, end: usize) -> (r: (Option<usize>, Vec<char>))
    requires
        end <= v.len(),
    ensures
        match r.0 {
            Some(i) => last_index_of(v@.take(end as int), '/') == i && i < end,
            None => last_index_of(v@.take(end as int), '/') == -1,
        },
        r.1@ == v@.take(end as int).skip(last_index_of(v@.take(end as int), '/') + 1),
{
    let i = last_index_before(v, end, '/');
    proof {
        lemma_last_index_of(v@.take(end as int), '/');
    }
    let start: usize = match i {
        Some(i) => i + 1,
        None => 0,
    };
    let seg: Vec<char> = vstd::slice::slice_to_vec(&v.as_slice()[start..end]);
    assert(seg@ =~= v@.take(end as int).skip(last_index_of(v@.take(end as int), '/') + 1));
    (i, seg)
}

/// The file name of a path, as `Path::file_name` gives it.
pub fn file_name(path: &str) -> (r: Option<Vec<char>>)
    ensures
        match r {
            Some(n) => file_name_spec(path@) == Some(n@),
            None => file_name_spec(path@) is None,
        },
{
    let v = chars_of(path);
    let mut end: usize = v.len();
    assert(v@.take(end as int) =~= v@);
    loop
        invariant
            v@ == path@,
            end <= v.len(),
            last_component(v@) == last_component(v@.take(end as int)),
        decreases end,
    {
        let (i, seg) = component_before(&v, end);
        if seg.len() > 0 && !is_dot(&seg) {
            if is_dot_dot(&seg) {
                return None;
            }
            return Some(seg);
        }
        match i {
            None => return None,
            Some(i) => {
                proof {
                    assert(v@.take(end as int).take(i as int) =~= v@.take(i as int));
                }
                end = i;
            },
        }
    }
}

/// The extension of a path, as `Path::extension` gives it.
pub fn file_extension(path: &str) -> (r: Option<String>)
    ensures
        match r {
            Some(e) => extension_spec(path@) == Some(e@),
            None => extension_spec(path@) is None,
        },
{
    let name = match file_name(path) {
        Some(n) => n,
        None => return None,
    };
    let d = last_index_before(&name, name.len(), '.');
    assert(name@.take(name@.len() as int) =~= name@);
    proof {
        lemma_last_index_of(name@, '.');
    }
    match d {
        Some(d) => if d == 0 {
            None
        } else {
            let e = string_of(&name.as_slice()[d + 1..name.len()]);
            assert(name@.subrange(d + 1, name@.len() as int) =~= name@.skip(d + 1));
            Some(e)
        },
        None => None,
    }
}

/// Whether a path names a session file: its extension is "jsonl".
pub fn is_session_file(path: &str) -> (r: bool)
    ensures
        r == (extension_spec(path@) == Some("jsonl"@)),
{
    match file_extension(path) {
        Some(e) => text_eq(e.as_str(), "jsonl"),
        None => false,
    }
}

/// The parts of a path between its "/" separators, empty ones included.
pub open spec fn split_slash(p: Seq<char>) -> Seq<Seq<char>>
    decreases p.len(),
{
    if p.len() == 0 {
        seq![Seq::<char>::empty()]
    } else {
        let s = split_slash(p.drop_last());
        if p.last() == '/' {
            s.push(Seq::<char>::empty())
        } else {
            s.update(s.len() - 1, s.last().push(p.last()))
        }
    }
}

/// A part that names a component: not empty and not ".".
pub open spec fn names_component(s: Seq<char>) -> bool {
    s.len() > 0 && s != seq!['.']
}

/// The parts that name components, in order.
pub open spec fn kept_parts(parts: Seq<Seq<char>>) -> Seq<Seq<char>>
    decreases parts.len(),
{
    if parts.len() == 0 {
        seq![]
    } else {
        let rest = kept_parts(parts.drop_last());
        if names_component(parts.last()) {
            rest.push(parts.last())
        } else {
            rest
        }
    }
}

/// Whether a path starts at the root.
pub open spec fn is_rooted(p: Seq<char>) -> bool {
    p.len() > 0 && p[0] == '/'
}

/// Whether a relative path starts with a "." component, which `Path` keeps.
pub open spec fn leads_with_cur_dir(p: Seq<char>) -> bool {
    !is_rooted(p) && p.len() > 0 && p[0] == '.' && (p.len() == 1 || p[1] == '/')
}

/// The components of a path as `std::path::Path::components` gives them (on Unix): whether
/// it has a root, then its parts, where repeated separators, a trailing separator and "."
/// are passed over, except a "." that begins a relative path.
pub open spec fn path_components(p: Seq<char>) -> (bool, Seq<Seq<char>>) {
    (
        is_rooted(p),
        if leads_with_cur_dir(p) {
            seq![seq!['.']] + kept_parts(split_slash(p))
        } else {
            kept_parts(split_slash(p))
        },
    )
}

/// Whether two optional paths are the same as `Option<PathBuf>`'s `==` says: both absent, or
/// both present with the same components.
pub open spec fn same_file_spec(a: Option<Seq<char>>, b: Option<Seq<char>>) -> bool {
    match (a, b) {
        (Some(x), Some(y)) => path_components(x) == path_components(y),
        (None, None) => true,
        _ => false,
    }
}

proof fn lemma_kept_names(parts: Seq<Seq<char>>)
    ensures
        forall|i: int| 0 <= i < kept_parts(parts).len() ==> names_component(#[trigger] kept_parts(parts)[i]),
    decreases parts.len(),
{
    if parts.len() > 0 {
        let rest = kept_parts(parts.drop_last());
        lemma_kept_names(parts.drop_last());
        assert forall|i: int| 0 <= i < kept_parts(parts).len() implies names_component(
            #[trigger] kept_parts(parts)[i],
        ) by {
            if i < rest.len() {
                assert(kept_parts(parts)[i] == rest[i]);
            }
        }
    }
}

pub open spec fn parts_view(v: Seq<Vec<char>>) -> Seq<Seq<char>> {
    v.map_values(|x: Vec<char>| x@)
}

/// The parts of a path that name components.
fn kept_parts_of(p: &Vec<char>) -> (r: Vec<Vec<char>>)
    ensures
        parts_view(r@) == kept_parts(split_slash(p@)),
{
    let mut done: Vec<Vec<char>> = Vec::new();
    let mut cur: Vec<char> = Vec::new();
    let mut i: usize = 0;
    assert(p@.take(0) =~= Seq::<char>::empty());
    while i < p.len()
        invariant
            i <= p.len(),
            split_slash(p@.take(i as int)).len() >= 1,
            parts_view(done@) == kept_parts(split_slash(p@.take(i as int)).drop_last()),
            cur@ == split_slash(p@.take(i as int)).last(),
        decreases p.len() - i,
    {
        let ghost s = split_slash(p@.take(i as int));
        let c = p[i];
        assert(p@.take(i + 1).drop_last() =~= p@.take(i as int));
        assert(p@.take(i + 1).last() == c);
        if c == '/' {
            let ghost before = done@;
            assert(s.push(Seq::<char>::empty()).drop_last() =~= s);
            assert(s.drop_last().push(s.last()) =~= s);
            if cur.len() > 0 && !(cur.len() == 1 && cur[0] == '.') {
                let taken = cur;
                done.push(taken);
                assert(parts_view(done@) =~= parts_view(before).push(taken@));
            } else {
                assert(!names_component(cur@)) by {
                    if cur@.len() == 1 {
                        assert(cur@ =~= seq!['.']);
                    }
                }
            }
            cur = Vec::new();
            assert(cur@ =~= Seq::<char>::empty());
        } else {
            assert(s.update(s.len() - 1, s.last().push(c)).drop_last() =~= s.drop_last());
            cur.push(c);
        }
        i = i + 1;
    }
    assert(p@.take(i as int) =~= p@);
    let ghost s = split_slash(p@);
    assert(s.drop_last().push(s.last()) =~= s);
    if cur.len() > 0 && !(cur.len() == 1 && cur[0] == '.') {
        let ghost before = done@;
        done.push(cur);
        assert(parts_view(done@) =~= parts_view(before).push(s.last()));
    } else {
        assert(!names_component(cur@)) by {
            if cur@.len() == 1 {
                assert(cur@ =~= seq!['.']);
            }
        }
    }
    done
}

fn chars_eq(a: &Vec<char>, b: &Vec<char>) -> (r: bool)
    ensures
        r == (a@ == b@),
{
    if a.len() != b.len() {
        return false;
    }
    let mut i: usize = 0;
    while i < a.len()
        invariant
            a.len() == b.len(),
            i <= a.len(),
            forall|j: int| 0 <= j < i ==> a@[j] == b@[j],
        decreases a.len() - i,
    {
        if a[i] != b[i] {
            return false;
        }
        i = i + 1;
    }
    assert(a@ =~= b@);
    true
}

fn parts_eq(a: &Vec<Vec<char>>, b: &Vec<Vec<char>>) -> (r: bool)
    ensures
        r == (parts_view(a@) == parts_view(b@)),
{
    if a.len() != b.len() {
        assert(parts_view(a@).len() != parts_view(b@).len());
        return false;
    }
    let mut i: usize = 0;
    while i < a.len()
        invariant
            a.len() == b.len(),
            i <= a.len(),
            forall|j: int| 0 <= j < i ==> a@[j]@ == b@[j]@,
        decreases a.len() - i,
    {
        if !chars_eq(&a[i], &b[i]) {
            assert(parts_view(a@)[i as int] != parts_view(b@)[i as int]);
            return false;
        }
        i = i + 1;
    }
    assert(parts_view(a@) =~= parts_view(b@));
    true
}

proof fn lemma_components_eq(x: Seq<char>, y: Seq<char>)
    ensures
        (path_components(x) == path_components(y)) <==> (is_rooted(x) == is_rooted(y)
            && leads_with_cur_dir(x) == leads_with_cur_dir(y) && kept_parts(split_slash(x))
            == kept_parts(split_slash(y))),
{
    let kx = kept_parts(split_slash(x));
    let ky = kept_parts(split_slash(y));
    let dot = seq![seq!['.']];
    lemma_kept_names(split_slash(x));
    lemma_kept_names(split_slash(y));
    if leads_with_cur_dir(x) && !leads_with_cur_dir(y) {
        if (dot + kx) == ky {
            assert((dot + kx)[0] == seq!['.']);
            assert(!names_component(ky[0]));
        }
    }
    if !leads_with_cur_dir(x) && leads_with_cur_dir(y) {
        if (dot + ky) == kx {
            assert((dot + ky)[0] == seq!['.']);
            assert(!names_component(kx[0]));
        }
    }
    if leads_with_cur_dir(x) && leads_with_cur_dir(y) && dot + kx == dot + ky {
        assert((dot + kx).skip(1) =~= kx);
        assert((dot + ky).skip(1) =~= ky);
    }
}

/// Whether two paths have the same components.
fn same_path(a: &str, b: &str) -> (r: bool)
    ensures
        r == (path_components(a@) == path_components(b@)),
{
    let va = chars_of(a);
    let vb = chars_of(b);
    let ra = va.len() > 0 && va[0] == '/';
    let rb = vb.len() > 0 && vb[0] == '/';
    let da = !ra && va.len() > 0 && va[0] == '.' && (va.len() == 1 || va[1] == '/');
    let db = !rb && vb.len() > 0 && vb[0] == '.' && (vb.len() == 1 || vb[1] == '/');
    let ka = kept_parts_of(&va);
    let kb = kept_parts_of(&vb);
    proof {
        lemma_components_eq(a@, b@);
    }
    ra == rb && da == db && parts_eq(&ka, &kb)
}

/// Whether two optional paths name the same file as `Option<PathBuf>`'s `==` says.
pub fn same_file(a: &Option<String>, b: &Option<String>) -> (r: bool)
    ensures
        r == same_file_spec(opt_view(*a), opt_view(*b)),
{
    match (a, b) {
        (Some(x), Some(y)) => same_path(x.as_str(), y.as_str()),
        (None, None) => true,
        _ => false,
    }
}

} // verus!
