//! Paths as `/`-separated strings: file name, stem, extension, joining.
//!
//! These follow `std::path::Path` on Unix for the paths this library
//! handles: the file name is the last non-empty segment (`None` for `.`
//! and `..`), the extension is what follows its last dot unless that dot
//! is the first character.

use vstd::prelude::*;

use crate::text::{chars_eq, extend_chars, slice_vec};

verus! {

/// Index of the last occurrence of `c` in `s`, or -1.
pub open spec fn last_index_of(s: Seq<char>, c: char) -> int
    decreases s.len(),
{
    if s.len() == 0 {
        -1
    } else if s.last() == c {
        s.len() - 1
    } else {
        last_index_of(s.drop_last(), c)
    }
}

/// `s` without trailing `/` characters.
pub open spec fn trim_slashes(s: Seq<char>) -> Seq<char>
    decreases s.len(),
{
    if s.len() > 0 && s.last() == '/' {
        trim_slashes(s.drop_last())
    } else {
        s
    }
}

/// The text after the last `/` of `s`.
pub open spec fn last_segment(s: Seq<char>) -> Seq<char> {
    s.subrange(last_index_of(s, '/') + 1, s.len() as int)
}

/// Everything up to and including the last `/` of `s` (the directory part).
pub open spec fn dir_prefix(s: Seq<char>) -> Seq<char> {
    s.subrange(0, last_index_of(s, '/') + 1)
}

pub open spec fn is_dot_segment(n: Seq<char>) -> bool {
    n == seq!['.'] || n == seq!['.', '.']
}

/// `Path::file_name`.
pub open spec fn file_name_spec(path: Seq<char>) -> Option<Seq<char>> {
    let n = last_segment(trim_slashes(path));
    if n.len() == 0 || is_dot_segment(n) {
        None
    } else {
        Some(n)
    }
}

/// Position of the dot that separates stem and extension in a file name,
/// or -1 when there is none (no dot, or only a leading one).
pub open spec fn ext_dot(name: Seq<char>) -> int {
    let d = last_index_of(name, '.');
    if d <= 0 {
        -1
    } else {
        d
    }
}

/// `Path::file_stem` of a file name.
pub open spec fn stem_of(name: Seq<char>) -> Seq<char> {
    if ext_dot(name) < 0 {
        name
    } else {
        name.subrange(0, ext_dot(name))
    }
}

/// `Path::extension` of a file name.
pub open spec fn ext_of(name: Seq<char>) -> Option<Seq<char>> {
    if ext_dot(name) < 0 {
        None
    } else {
        Some(name.subrange(ext_dot(name) + 1, name.len() as int))
    }
}

pub open spec fn file_stem_spec(path: Seq<char>) -> Option<Seq<char>> {
    match file_name_spec(path) {
        Some(n) => Some(stem_of(n)),
        None => None,
    }
}

pub open spec fn extension_spec(path: Seq<char>) -> Option<Seq<char>> {
    match file_name_spec(path) {
        Some(n) => ext_of(n),
        None => None,
    }
}

/// `PathBuf::join`: an absolute `rel` replaces `base`; otherwise one `/`
/// separates them unless `base` is empty or already ends with one.
pub open spec fn join_spec(base: Seq<char>, rel: Seq<char>) -> Seq<char> {
    if rel.len() > 0 && rel[0] == '/' {
        rel
    } else if base.len() == 0 || base.last() == '/' {
        base + rel
    } else {
        base + seq!['/'] + rel
    }
}

pub proof fn lemma_last_index_of(s: Seq<char>, c: char)
    ensures
        -1 <= last_index_of(s, c) < s.len(),
        last_index_of(s, c) >= 0 ==> s[last_index_of(s, c)] == c,
        forall|k: int| last_index_of(s, c) < k < s.len() ==> s[k] != c,
    decreases s.len(),
{
    if s.len() > 0 && s.last() != c {
        lemma_last_index_of(s.drop_last(), c);
        assert forall|k: int| last_index_of(s, c) < k < s.len() implies s[k] != c by {
            if k < s.len() - 1 {
                assert(s[k] == s.drop_last()[k]);
            }
        }
    }
}

/// Index of the last `c` in `v[0..n]`.
pub fn last_index(v: &Vec<char>, n: usize, c: char) -> (r: Option<usize>)
    requires
        n <= v.len(),
    ensures
        match r {
            Some(i) => last_index_of(v@.subrange(0, n as int), c) == i as int,
            None => last_index_of(v@.subrange(0, n as int), c) == -1,
        },
{
    let mut i: usize = n;
    while i > 0 && v[i - 1] != c
        invariant
            i <= n <= v.len(),
            last_index_of(v@.subrange(0, n as int), c) == last_index_of(
                v@.subrange(0, i as int),
                c,
            ),
        decreases i,
    {
        proof {
            assert(v@.subrange(0, i as int).drop_last() =~= v@.subrange(0, i - 1));
        }
        i = i - 1;
    }
    if i == 0 {
        None
    } else {
        Some(i - 1)
    }
}

/// `Path::file_name`.
pub fn file_name(path: &Vec<char>) -> (r: Option<Vec<char>>)
    ensures
        match r {
            Some(n) => file_name_spec(path@) == Some(n@) && n.len() <= path.len(),
            None => file_name_spec(path@) is None,
        },
{
    let mut e: usize = path.len();
    assert(path@.subrange(0, path.len() as int) =~= path@);
    while e > 0 && path[e - 1] == '/'
        invariant
            e <= path.len(),
            trim_slashes(path@) == trim_slashes(path@.subrange(0, e as int)),
        decreases e,
    {
        proof {
            assert(path@.subrange(0, e as int).drop_last() =~= path@.subrange(0, e - 1));
        }
        e = e - 1;
    }
    proof {
        assert(path@.subrange(0, path.len() as int) =~= path@);
        let t = path@.subrange(0, e as int);
        if e > 0 {
            assert(t.last() == path@[e - 1]);
        }
        assert(trim_slashes(t) == t);
    }
    let s = last_index(path, e, '/');
    proof {
        lemma_last_index_of(path@.subrange(0, e as int), '/');
    }
    let start: usize = match s {
        Some(k) => k + 1,
        None => 0,
    };
    let n = slice_vec(path, start, e);
    proof {
        assert(n@ =~= last_segment(trim_slashes(path@)));
    }
    if n.len() == 0 || (n.len() == 1 && n[0] == '.') || (n.len() == 2 && n[0] == '.' && n[1]
        == '.') {
        proof {
            if n.len() == 1 {
                assert(n@ =~= seq!['.']);
            }
            if n.len() == 2 {
                assert(n@ =~= seq!['.', '.']);
            }
        }
        None
    } else {
        proof {
            if n@ == seq!['.'] {
                assert(n@[0] == '.');
            }
            if n@ == seq!['.', '.'] {
                assert(n@[0] == '.' && n@[1] == '.');
            }
        }
        Some(n)
    }
}

/// Stem and extension of a file name (`Path::file_stem`, `Path::extension`).
pub fn split_stem_ext(name: &Vec<char>) -> (r: (Vec<char>, Option<Vec<char>>))
    ensures
        r.0@ == stem_of(name@),
        match r.1 {
            Some(e) => ext_of(name@) == Some(e@),
            None => ext_of(name@) is None,
        },
{
    let d = last_index(name, name.len(), '.');
    proof {
        assert(name@.subrange(0, name.len() as int) =~= name@);
        lemma_last_index_of(name@, '.');
    }
    match d {
        Some(du) if du > 0 => (slice_vec(name, 0, du), Some(slice_vec(name, du + 1, name.len()))),
        _ => (slice_vec(name, 0, name.len()), None),
    }
}

/// `Path::file_stem`.
pub fn file_stem(path: &Vec<char>) -> (r: Option<Vec<char>>)
    ensures
        match r {
            Some(n) => file_stem_spec(path@) == Some(n@),
            None => file_stem_spec(path@) is None,
        },
{
    match file_name(path) {
        None => None,
        Some(n) => {
            let (s, _e) = split_stem_ext(&n);
            Some(s)
        },
    }
}

/// `Path::extension`.
pub fn extension(path: &Vec<char>) -> (r: Option<Vec<char>>)
    ensures
        match r {
            Some(n) => extension_spec(path@) == Some(n@),
            None => extension_spec(path@) is None,
        },
{
    match file_name(path) {
        None => None,
        Some(n) => {
            let (_s, e) = split_stem_ext(&n);
            e
        },
    }
}

/// `PathBuf::join`.
pub fn join(base: &Vec<char>, rel: &Vec<char>) -> (r: Vec<char>)
    ensures
        r@ == join_spec(base@, rel@),
{
    if rel.len() > 0 && rel[0] == '/' {
        return slice_vec(rel, 0, rel.len());
    }
    let mut r = slice_vec(base, 0, base.len());
    if !(base.len() == 0 || base[base.len() - 1] == '/') {
        r.push('/');
    }
    let mut i: usize = 0;
    while i < rel.len()
        invariant
            i <= rel.len(),
            r@ == (if base@.len() == 0 || base@.last() == '/' {
                base@
            } else {
                base@ + seq!['/']
            }) + rel@.subrange(0, i as int),
        decreases rel.len() - i,
    {
        r.push(rel[i]);
        i = i + 1;
    }
    assert(rel@.subrange(0, rel.len() as int) =~= rel@);
    r
}


/// The character sequences of a list of character vectors.
pub open spec fn vviews(v: Seq<Vec<char>>) -> Seq<Seq<char>> {
    v.map_values(|c: Vec<char>| c@)
}

/// Adds a finished segment to the component list: empty segments vanish,
/// and `.` survives only as the first component.
pub open spec fn push_seg(acc: Seq<Seq<char>>, seg: Seq<char>) -> Seq<Seq<char>> {
    if seg.len() == 0 || (seg == seq!['.'] && acc.len() > 0) {
        acc
    } else {
        acc.push(seg)
    }
}

/// Components of `s[i..]`, with `cur` the segment read so far and `acc`
/// the components already completed.
pub open spec fn comps_from(s: Seq<char>, i: int, cur: Seq<char>, acc: Seq<Seq<char>>) -> Seq<
    Seq<char>,
>
    decreases s.len() - i,
{
    if i >= s.len() {
        push_seg(acc, cur)
    } else if s[i] == '/' {
        comps_from(s, i + 1, seq![], push_seg(acc, cur))
    } else {
        comps_from(s, i + 1, cur.push(s[i]), acc)
    }
}

/// `Path::components` on Unix: a leading `/` is the root component, empty
/// segments and inner `.` segments are dropped.
pub open spec fn components(s: Seq<char>) -> Seq<Seq<char>> {
    if s.len() > 0 && s[0] == '/' {
        comps_from(s, 1, seq![], seq![seq!['/']])
    } else {
        comps_from(s, 0, seq![], seq![])
    }
}

/// `Path::starts_with`: the components of `base` are a prefix of those of
/// `path`.
pub open spec fn path_starts_with(path: Seq<char>, base: Seq<char>) -> bool {
    components(base).len() <= components(path).len() && components(path).subrange(
        0,
        components(base).len() as int,
    ) == components(base)
}

/// Components joined with `/`.
pub open spec fn join_comps(c: Seq<Seq<char>>) -> Seq<char>
    decreases c.len(),
{
    if c.len() == 0 {
        seq![]
    } else if c.len() == 1 {
        c[0]
    } else {
        join_comps(c.drop_last()) + seq!['/'] + c.last()
    }
}

/// `Path::strip_prefix`.
pub open spec fn strip_prefix_spec(path: Seq<char>, base: Seq<char>) -> Option<Seq<char>> {
    if path_starts_with(path, base) {
        Some(
            join_comps(
                components(path).subrange(
                    components(base).len() as int,
                    components(path).len() as int,
                ),
            ),
        )
    } else {
        None
    }
}

/// Components of a path.
pub fn components_of(s: &Vec<char>) -> (r: Vec<Vec<char>>)
    ensures
        vviews(r@) == components(s@),
{
    let mut acc: Vec<Vec<char>> = Vec::new();
    let mut i: usize = 0;
    if s.len() > 0 && s[0] == '/' {
        let mut root: Vec<char> = Vec::new();
        root.push('/');
        acc.push(root);
        i = 1;
    }
    let mut cur: Vec<char> = Vec::new();
    proof {
        assert(vviews(acc@) =~= (if s@.len() > 0 && s@[0] == '/' {
            seq![seq!['/']]
        } else {
            seq![]
        }));
    }
    while i < s.len()
        invariant
            i <= s.len(),
            components(s@) == comps_from(s@, i as int, cur@, vviews(acc@)),
        decreases s.len() - i,
    {
        if s[i] == '/' {
            let ghost old_acc = vviews(acc@);
            let is_dot = cur.len() == 1 && cur[0] == '.';
            proof {
                if is_dot {
                    assert(cur@ =~= seq!['.']);
                }
                if cur@ == seq!['.'] {
                    assert(cur@[0] == '.');
                }
            }
            if !(cur.len() == 0 || (is_dot && acc.len() > 0)) {
                acc.push(cur);
                proof {
                    assert(vviews(acc@) =~= old_acc.push(
                        acc@.last()@,
                    ));
                }
            }
            cur = Vec::new();
            proof {
                assert(cur@ =~= Seq::<char>::empty());
            }
        } else {
            cur.push(s[i]);
        }
        i = i + 1;
    }
    let ghost old_acc = vviews(acc@);
    let is_dot = cur.len() == 1 && cur[0] == '.';
    proof {
        if is_dot {
            assert(cur@ =~= seq!['.']);
        }
        if cur@ == seq!['.'] {
            assert(cur@[0] == '.');
        }
    }
    if !(cur.len() == 0 || (is_dot && acc.len() > 0)) {
        acc.push(cur);
        proof {
            assert(vviews(acc@) =~= old_acc.push(acc@.last()@));
        }
    }
    acc
}

/// `Path::starts_with`.
pub fn starts_with(path: &Vec<char>, base: &Vec<char>) -> (r: bool)
    ensures
        r == path_starts_with(path@, base@),
{
    let pc = components_of(path);
    let bc = components_of(base);
    let ghost pv = vviews(pc@);
    let ghost bv = vviews(bc@);
    assert(pv.len() == pc@.len() && bv.len() == bc@.len());
    if bc.len() > pc.len() {
        return false;
    }
    let mut i: usize = 0;
    while i < bc.len()
        invariant
            i <= bc.len() <= pc.len(),
            pv == vviews(pc@),
            bv == vviews(bc@),
            pv == components(path@),
            bv == components(base@),
            forall|k: int| 0 <= k < i ==> pv[k] == bv[k],
        decreases bc.len() - i,
    {
        if !chars_eq(&pc[i], &bc[i]) {
            proof {
                assert(pv.subrange(0, bv.len() as int)[i as int] != bv[i as int]);
            }
            return false;
        }
        i = i + 1;
    }
    assert(pv.subrange(0, bv.len() as int) =~= bv);
    true
}

/// Components joined with `/`.
pub fn join_components(c: &Vec<Vec<char>>, from: usize) -> (r: Vec<char>)
    requires
        from <= c.len(),
    ensures
        r@ == join_comps(vviews(c@).subrange(from as int, c.len() as int)),
{
    let ghost cv = vviews(c@);
    let mut r: Vec<char> = Vec::new();
    let mut i: usize = from;
    while i < c.len()
        invariant
            from <= i <= c.len(),
            cv == vviews(c@),
            r@ == join_comps(cv.subrange(from as int, i as int)),
        decreases c.len() - i,
    {
        let ghost prev = cv.subrange(from as int, i as int);
        let ghost next = cv.subrange(from as int, i + 1);
        assert(next.drop_last() =~= prev);
        if i > from {
            r.push('/');
        }
        extend_chars(&mut r, &c[i]);
        proof {
            if i == from {
                assert(prev.len() == 0);
                assert(r@ =~= next[0]);
            }
        }
        i = i + 1;
    }
    r
}

/// `Path::strip_prefix`.
pub fn strip_prefix(path: &Vec<char>, base: &Vec<char>) -> (r: Option<Vec<char>>)
    ensures
        match r {
            Some(v) => strip_prefix_spec(path@, base@) == Some(v@),
            None => strip_prefix_spec(path@, base@) is None,
        },
{
    if !starts_with(path, base) {
        return None;
    }
    let pc = components_of(path);
    let bc = components_of(base);
    Some(join_components(&pc, bc.len()))
}


/// Two paths are equal as `Path`s: the same components.
pub open spec fn same_path_spec(a: Seq<char>, b: Seq<char>) -> bool {
    components(a) == components(b)
}

/// `Path == Path`.
pub fn same_path(a: &str, b: &str) -> (r: bool)
    ensures
        r == same_path_spec(a@, b@),
{
    let ca = components_of(&crate::text::chars_of(a));
    let cb = components_of(&crate::text::chars_of(b));
    if ca.len() != cb.len() {
        proof {
            assert(vviews(ca@).len() == ca.len());
            assert(vviews(cb@).len() == cb.len());
        }
        return false;
    }
    let mut i: usize = 0;
    while i < ca.len()
        invariant
            i <= ca.len(),
            ca.len() == cb.len(),
            vviews(ca@) == components(a@),
            vviews(cb@) == components(b@),
            forall|k: int| 0 <= k < i ==> vviews(ca@)[k] == vviews(cb@)[k],
        decreases ca.len() - i,
    {
        if !chars_eq(&ca[i], &cb[i]) {
            proof {
                assert(vviews(ca@)[i as int] != vviews(cb@)[i as int]);
            }
            return false;
        }
        i = i + 1;
    }
    assert(vviews(ca@) =~= vviews(cb@));
    true
}


/// The directory part of a path (up to and including its last
/// separator), after trailing separators: what `Path::parent` names,
/// ready to have a file name appended.
pub open spec fn parent_dir(path: Seq<char>) -> Seq<char> {
    dir_prefix(trim_slashes(path))
}

/// The directory part of a path.
pub fn parent_prefix(fv: &Vec<char>) -> (r: Vec<char>)
    ensures
        r@ == parent_dir(fv@),
{
    let mut e: usize = fv.len();
    assert(fv@.subrange(0, fv.len() as int) =~= fv@);
    while e > 0 && fv[e - 1] == '/'
        invariant
            e <= fv.len(),
            trim_slashes(fv@) == trim_slashes(fv@.subrange(0, e as int)),
        decreases e,
    {
        proof {
            assert(fv@.subrange(0, e as int).drop_last() =~= fv@.subrange(0, e - 1));
        }
        e = e - 1;
    }
    let trimmed = slice_vec(fv, 0, e);
    proof {
        assert(trim_slashes(fv@.subrange(0, e as int)) == fv@.subrange(0, e as int));
        assert(trimmed@.subrange(0, trimmed.len() as int) =~= trimmed@);
        lemma_last_index_of(trimmed@, '/');
    }
    let cut = match last_index(&trimmed, trimmed.len(), '/') {
        Some(p) => p + 1,
        None => 0,
    };
    slice_vec(&trimmed, 0, cut)
}


pub proof fn lemma_last_index_of_append(a: Seq<char>, b: Seq<char>, c: char)
    requires
        forall|k: int| 0 <= k < b.len() ==> b[k] != c,
    ensures
        last_index_of(a + b, c) == last_index_of(a, c),
    decreases b.len(),
{
    if b.len() == 0 {
        assert(a + b =~= a);
    } else {
        assert((a + b).drop_last() =~= a + b.drop_last());
        assert((a + b).last() == b.last());
        assert(b.last() == b[b.len() - 1]);
        lemma_last_index_of_append(a, b.drop_last(), c);
    }
}

/// Joining a plain name (no separator, not `.` or `..`) onto a folder
/// gives a path whose file name is that name.
pub proof fn lemma_file_name_of_join(base: Seq<char>, name: Seq<char>)
    requires
        name.len() > 0,
        forall|k: int| 0 <= k < name.len() ==> name[k] != '/',
        !is_dot_segment(name),
    ensures
        file_name_spec(join_spec(base, name)) == Some(name),
{
    let p = if base.len() == 0 || base.last() == '/' {
        base
    } else {
        base + seq!['/']
    };
    let j = join_spec(base, name);
    assert(name[0] != '/');
    assert(j =~= p + name);
    assert(j.last() == name.last());
    assert(name.last() == name[name.len() - 1]);
    assert(trim_slashes(j) == j);
    lemma_last_index_of_append(p, name, '/');
    if p.len() > 0 {
        assert(p.last() == '/');
        assert(last_index_of(p, '/') == p.len() - 1);
    } else {
        assert(last_index_of(p, '/') == -1);
    }
    assert(last_segment(j) =~= name);
}

/// A file name is a plain name: not empty, without `/`, not `.` or `..`;
/// its extension, if any, holds no `.` and no `/`.
pub proof fn lemma_file_name_plain(path: Seq<char>)
    ensures
        file_name_spec(path) matches Some(n) ==> {
            &&& n.len() > 0
            &&& (forall|k: int| 0 <= k < n.len() ==> n[k] != '/')
            &&& !is_dot_segment(n)
            &&& (ext_of(n) matches Some(e) ==> forall|k: int| 0 <= k < e.len() ==> e[k] != '/' && e[k] != '.')
        },
{
    if let Some(n) = file_name_spec(path) {
        let t = trim_slashes(path);
        lemma_last_index_of(t, '/');
        assert forall|k: int| 0 <= k < n.len() implies n[k] != '/' by {
            assert(n[k] == t[last_index_of(t, '/') + 1 + k]);
        }
        lemma_last_index_of(n, '.');
        if let Some(e) = ext_of(n) {
            let d = ext_dot(n);
            assert forall|k: int| 0 <= k < e.len() implies e[k] != '/' && e[k] != '.' by {
                assert(e[k] == n[d + 1 + k]);
            }
        }
    }
}

} // verus!
