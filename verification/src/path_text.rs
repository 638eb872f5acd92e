//! The library's model of a file path: text whose components are separated by
//! `/` or, as on Windows, `\` (joining inserts `/`, which Windows accepts
//! too). As `std::path` reads a path, trailing separators and trailing `.`
//! components do not count: the file name is the last component that is
//! left, none when that is `.` or `..`; its extension is the text after the
//! last `.` of the file name (a leading dot does not start an extension),
//! and its parent is what comes before that component, itself read the same
//! way. Drive prefixes such as `C:` are read as ordinary components.
use vstd::prelude::*;
use crate::text::{
    chars_eq, lower_chars, lower_text, push_all, slice_chars, starts_with, starts_with_chars,
};

verus! {

/// Index of the last `c` in `s`, or -1.
pub open spec fn last_index_of(s: Seq<char>, c: char) -> int
    decreases s.len(),
{
    if s.len() == 0 {
        -1
    } else if s.last() == c {
        s.len() - 1
    } else {
        last_index_of(s.drop_last(), c)
    }
}

/// A path separator: `/`, or `\` as on Windows.
pub open spec fn is_sep(c: char) -> bool {
    c == '/' || c == '\\'
}

/// Index of the last separator in `s`, or -1.
pub open spec fn last_sep_of(s: Seq<char>) -> int
    decreases s.len(),
{
    if s.len() == 0 {
        -1
    } else if is_sep(s.last()) {
        s.len() - 1
    } else {
        last_sep_of(s.drop_last())
    }
}

/// `p` ends in something that does not count as a component: a separator,
/// or a `.` right after a separator (a lone root still counts).
pub open spec fn ends_in_filler(p: Seq<char>) -> bool {
    p.len() > 1 && (is_sep(p.last()) || (p.last() == '.' && is_sep(p[p.len() - 2])))
}

/// The length of `p` once trailing separators and trailing `.` components
/// are dropped.
pub open spec fn trimmed_len(p: Seq<char>) -> nat
    decreases p.len(),
{
    if ends_in_filler(p) {
        trimmed_len(p.drop_last())
    } else {
        p.len()
    }
}

/// `p` without trailing separators and trailing `.` components.
pub open spec fn trim_end(p: Seq<char>) -> Seq<char> {
    p.subrange(0, trimmed_len(p) as int)
}

/// Index of the separator before the last component, or -1.
pub open spec fn sep_index(p: Seq<char>) -> int {
    last_sep_of(trim_end(p))
}

/// The last component of `p`, `.` and `..` included.
pub open spec fn last_component(p: Seq<char>) -> Seq<char> {
    trim_end(p).subrange(sep_index(p) + 1, trimmed_len(p) as int)
}

/// The file name: the last component, or nothing when that is `.` or `..`
/// (or the path is empty or a root).
pub open spec fn file_name(p: Seq<char>) -> Seq<char> {
    let c = last_component(p);
    if c == seq!['.'] || c == seq!['.', '.'] {
        Seq::empty()
    } else {
        c
    }
}

pub open spec fn dot_index(p: Seq<char>) -> int {
    last_index_of(file_name(p), '.')
}

/// The extension of the file name, if it has one.
pub open spec fn extension(p: Seq<char>) -> Option<Seq<char>> {
    let n = file_name(p);
    let d = dot_index(p);
    if d <= 0 {
        None
    } else {
        Some(n.subrange(d + 1, n.len() as int))
    }
}

/// The file name without its extension.
pub open spec fn file_stem(p: Seq<char>) -> Seq<char> {
    let n = file_name(p);
    let d = dot_index(p);
    if d <= 0 {
        n
    } else {
        n.subrange(0, d)
    }
}

/// Everything before the last component.
pub open spec fn dir_prefix(p: Seq<char>) -> Seq<char> {
    p.subrange(0, sep_index(p) + 1)
}

/// The parent folder: what comes before the last component, read without
/// its trailing separators; `None` for the empty path and for a root.
pub open spec fn parent(p: Seq<char>) -> Option<Seq<char>> {
    let t = trim_end(p);
    let k = sep_index(p);
    if t.len() == 0 || (t.len() == 1 && is_sep(t[0])) {
        None
    } else if k < 0 {
        Some(Seq::empty())
    } else {
        Some(trim_end(p.subrange(0, k + 1)))
    }
}

/// `name` placed inside `dir`.
pub open spec fn join(dir: Seq<char>, name: Seq<char>) -> Seq<char> {
    if dir.len() == 0 || (name.len() > 0 && is_sep(name[0])) {
        name
    } else if is_sep(dir.last()) {
        dir + name
    } else {
        dir + seq!['/'] + name
    }
}

/// The same path with its extension set to `ext`: what follows the file
/// stem is replaced; a path without a file name is left as it is.
pub open spec fn with_extension(p: Seq<char>, ext: Seq<char>) -> Seq<char> {
    if file_name(p).len() == 0 {
        p
    } else {
        dir_prefix(p) + file_stem(p) + seq!['.'] + ext
    }
}

/// Lower-cased extension, or empty text when there is none.
pub open spec fn lower_extension_of(p: Seq<char>) -> Seq<char> {
    match extension(p) {
        Some(e) => lower_text(e),
        None => Seq::empty(),
    }
}

/// `path` is `root` or lies somewhere below it.
pub open spec fn inside_root(root: Seq<char>, path: Seq<char>) -> bool {
    ||| path == root
    ||| (root.len() > 0 && is_sep(root.last()) && starts_with(path, root))
    ||| starts_with(path, root + seq!['/'])
    ||| starts_with(path, root + seq!['\\'])
}

pub proof fn lemma_last_sep_bounds(s: Seq<char>)
    ensures
        -1 <= last_sep_of(s) < s.len(),
        last_sep_of(s) >= 0 ==> is_sep(s[last_sep_of(s)]),
        forall|j: int| last_sep_of(s) < j < s.len() ==> !is_sep(#[trigger] s[j]),
    decreases s.len(),
{
    if s.len() > 0 && !is_sep(s.last()) {
        lemma_last_sep_bounds(s.drop_last());
        let k = last_sep_of(s);
        if k >= 0 {
            assert(s[k] == s.drop_last()[k]);
        }
        assert forall|j: int| k < j < s.len() implies !is_sep(#[trigger] s[j]) by {
            if j < s.len() - 1 {
                assert(s[j] == s.drop_last()[j]);
            }
        }
    }
}

pub proof fn lemma_last_sep_unique(s: Seq<char>, k: int)
    requires
        -1 <= k < s.len(),
        k >= 0 ==> is_sep(s[k]),
        forall|j: int| k < j < s.len() ==> !is_sep(#[trigger] s[j]),
    ensures
        last_sep_of(s) == k,
    decreases s.len(),
{
    if s.len() > 0 && k < s.len() - 1 {
        assert(!is_sep(s[s.len() - 1]));
        assert forall|j: int| k < j < s.drop_last().len() implies !is_sep(#[trigger] s.drop_last()[j]) by {
            assert(s.drop_last()[j] == s[j]);
        }
        if k >= 0 {
            assert(s.drop_last()[k] == s[k]);
        }
        lemma_last_sep_unique(s.drop_last(), k);
    }
}

/// Index of the last separator in `s`.
pub fn last_sep(s: &[char]) -> (r: Option<usize>)
    ensures
        match r {
            Some(i) => i as int == last_sep_of(s@),
            None => last_sep_of(s@) == -1,
        },
{
    let mut i: usize = s.len();
    while i > 0
        invariant
            i <= s@.len(),
            forall|j: int| i <= j < s@.len() ==> !is_sep(#[trigger] s@[j]),
        decreases i,
    {
        if s[i - 1] == '/' || s[i - 1] == '\\' {
            proof {
                lemma_last_sep_unique(s@, i - 1);
            }
            return Some(i - 1);
        }
        i = i - 1;
    }
    proof {
        lemma_last_sep_unique(s@, -1);
    }
    None
}

pub proof fn lemma_last_index_bounds(s: Seq<char>, c: char)
    ensures
        -1 <= last_index_of(s, c) < s.len(),
        last_index_of(s, c) >= 0 ==> s[last_index_of(s, c)] == c,
        forall|j: int| last_index_of(s, c) < j < s.len() ==> s[j] != c,
    decreases s.len(),
{
    if s.len() > 0 && s.last() != c {
        lemma_last_index_bounds(s.drop_last(), c);
        let k = last_index_of(s, c);
        if k >= 0 {
            assert(s[k] == s.drop_last()[k]);
        }
        assert forall|j: int| k < j < s.len() implies s[j] != c by {
            if j < s.len() - 1 {
                assert(s[j] == s.drop_last()[j]);
            }
        }
    }
}

pub proof fn lemma_last_index_unique(s: Seq<char>, c: char, k: int)
    requires
        -1 <= k < s.len(),
        k >= 0 ==> s[k] == c,
        forall|j: int| k < j < s.len() ==> s[j] != c,
    ensures
        last_index_of(s, c) == k,
    decreases s.len(),
{
    if s.len() > 0 && k < s.len() - 1 {
        assert(s[s.len() - 1] != c);
        assert forall|j: int| k < j < s.drop_last().len() implies s.drop_last()[j] != c by {
            assert(s.drop_last()[j] == s[j]);
        }
        if k >= 0 {
            assert(s.drop_last()[k] == s[k]);
        }
        lemma_last_index_unique(s.drop_last(), c, k);
    }
}

/// Index of the last `c` in `s`.
pub fn last_index(s: &[char], c: char) -> (r: Option<usize>)
    ensures
        match r {
            Some(i) => i as int == last_index_of(s@, c),
            None => last_index_of(s@, c) == -1,
        },
{
    let mut i: usize = s.len();
    while i > 0
        invariant
            i <= s@.len(),
            forall|j: int| i <= j < s@.len() ==> s@[j] != c,
        decreases i,
    {
        if s[i - 1] == c {
            proof {
                lemma_last_index_unique(s@, c, i - 1);
            }
            return Some(i - 1);
        }
        i = i - 1;
    }
    proof {
        lemma_last_index_unique(s@, c, -1);
    }
    None
}

pub proof fn lemma_trimmed_len(p: Seq<char>)
    ensures
        trimmed_len(p) <= p.len(),
        !ends_in_filler(trim_end(p)),
    decreases p.len(),
{
    if ends_in_filler(p) {
        lemma_trimmed_len(p.drop_last());
        assert(trim_end(p) =~= trim_end(p.drop_last()));
    } else {
        assert(trim_end(p) =~= p);
    }
}

/// The length of `p` once trailing separators and `.` components are
/// dropped.
pub fn trimmed_length(p: &[char]) -> (r: usize)
    ensures
        r == trimmed_len(p@),
        r <= p@.len(),
{
    let mut n: usize = p.len();
    assert(p@.take(n as int) =~= p@);
    while n > 1 && (p[n - 1] == '/' || p[n - 1] == '\\' || (p[n - 1] == '.' && (p[n - 2] == '/'
        || p[n - 2] == '\\')))
        invariant
            n <= p@.len(),
            trimmed_len(p@.take(n as int)) == trimmed_len(p@),
        decreases n,
    {
        let ghost t = p@.take(n as int);
        assert(t.last() == p@[n - 1]);
        assert(t[t.len() - 2] == p@[n - 2]);
        assert(ends_in_filler(t));
        assert(t.drop_last() =~= p@.take(n - 1));
        n = n - 1;
    }
    proof {
        let t = p@.take(n as int);
        if n > 1 {
            assert(t.last() == p@[n - 1]);
            assert(t[t.len() - 2] == p@[n - 2]);
        }
        assert(!ends_in_filler(t));
    }
    n
}

/// Position just after the separator before the last component (0 when
/// there is none).
pub fn name_start(p: &[char]) -> (r: usize)
    ensures
        r as int == sep_index(p@) + 1,
        r <= trimmed_len(p@),
        trimmed_len(p@) <= p@.len(),
{
    let n = trimmed_length(p);
    let t = slice_chars(p, 0, n);
    assert(t@ =~= trim_end(p@));
    proof {
        lemma_last_sep_bounds(t@);
    }
    match last_sep(t.as_slice()) {
        Some(i) => i + 1,
        None => 0,
    }
}

/// The last component of `p`, `.` and `..` included.
pub fn last_component_chars(p: &[char]) -> (r: Vec<char>)
    ensures
        r@ == last_component(p@),
{
    let n = trimmed_length(p);
    let s = name_start(p);
    let c = slice_chars(p, s, n);
    assert(c@ =~= last_component(p@));
    c
}

pub fn file_name_chars(p: &[char]) -> (r: Vec<char>)
    ensures
        r@ == file_name(p@),
{
    let c = last_component_chars(p);
    if (c.len() == 1 && c[0] == '.') || (c.len() == 2 && c[0] == '.' && c[1] == '.') {
        assert(c@ =~= seq!['.'] || c@ =~= seq!['.', '.']);
        Vec::new()
    } else {
        assert(!(c@ =~= seq!['.']) && !(c@ =~= seq!['.', '.'])) by {
            if c@ =~= seq!['.'] {
                assert(c@.len() == 1 && c@[0] == '.');
            }
            if c@ =~= seq!['.', '.'] {
                assert(c@.len() == 2 && c@[0] == '.' && c@[1] == '.');
            }
        }
        c
    }
}

/// `(start of the file name, index of its last dot)`, the dot index being
/// relative to the file name.
pub fn name_and_dot(p: &[char]) -> (r: (Vec<char>, Option<usize>))
    ensures
        r.0@ == file_name(p@),
        match r.1 {
            Some(d) => d as int == dot_index(p@) && d > 0,
            None => dot_index(p@) <= 0,
        },
{
    let name = file_name_chars(p);
    proof {
        lemma_last_index_bounds(name@, '.');
    }
    match last_index(name.as_slice(), '.') {
        Some(d) => {
            if d == 0 {
                (name, None)
            } else {
                (name, Some(d))
            }
        },
        None => (name, None),
    }
}

pub fn extension_chars(p: &[char]) -> (r: Option<Vec<char>>)
    ensures
        match r {
            Some(e) => extension(p@) == Some(e@),
            None => extension(p@) is None,
        },
{
    let (name, dot) = name_and_dot(p);
    proof {
        lemma_last_index_bounds(name@, '.');
    }
    match dot {
        Some(d) => {
            assert(d as int == last_index_of(name@, '.'));
            assert(last_index_of(name@, '.') < name@.len());
            assert(d < name.len());
            Some(slice_chars(name.as_slice(), d + 1, name.len()))
        },
        None => None,
    }
}

pub fn file_stem_chars(p: &[char]) -> (r: Vec<char>)
    ensures
        r@ == file_stem(p@),
{
    let (name, dot) = name_and_dot(p);
    proof {
        lemma_last_index_bounds(name@, '.');
    }
    match dot {
        Some(d) => slice_chars(name.as_slice(), 0, d),
        None => name,
    }
}

pub fn dir_prefix_chars(p: &[char]) -> (r: Vec<char>)
    ensures
        r@ == dir_prefix(p@),
{
    let s = name_start(p);
    slice_chars(p, 0, s)
}

pub fn parent_chars(p: &[char]) -> (r: Option<Vec<char>>)
    ensures
        match r {
            Some(d) => parent(p@) == Some(d@),
            None => parent(p@) is None,
        },
{
    let n = trimmed_length(p);
    if n == 0 || (n == 1 && (p[0] == '/' || p[0] == '\\')) {
        assert(trim_end(p@).len() == n);
        assert(n == 1 ==> trim_end(p@)[0] == p@[0]);
        return None;
    }
    assert(trim_end(p@).len() == n && trim_end(p@)[0] == p@[0]);
    let s = name_start(p);
    if s == 0 {
        return Some(Vec::new());
    }
    let pre = slice_chars(p, 0, s);
    let m = trimmed_length(pre.as_slice());
    let out = slice_chars(p, 0, m);
    assert(out@ =~= trim_end(p@.subrange(0, s as int)));
    Some(out)
}

pub fn join_chars(dir: &[char], name: &[char]) -> (r: Vec<char>)
    ensures
        r@ == join(dir@, name@),
{
    if dir.len() == 0 || (name.len() > 0 && (name[0] == '/' || name[0] == '\\')) {
        slice_chars(name, 0, name.len())
    } else {
        let mut out = slice_chars(dir, 0, dir.len());
        assert(out@ =~= dir@);
        if !(dir[dir.len() - 1] == '/' || dir[dir.len() - 1] == '\\') {
            out.push('/');
        }
        push_all(&mut out, name);
        assert(dir@.last() == dir@[dir@.len() - 1]);
        assert(out@ =~= join(dir@, name@));
        out
    }
}

pub fn with_extension_chars(p: &[char], ext: &[char]) -> (r: Vec<char>)
    ensures
        r@ == with_extension(p@, ext@),
{
    let name = file_name_chars(p);
    if name.len() == 0 {
        return slice_chars(p, 0, p.len());
    }
    let mut out = dir_prefix_chars(p);
    let stem = file_stem_chars(p);
    push_all(&mut out, stem.as_slice());
    out.push('.');
    push_all(&mut out, ext);
    assert(out@ =~= with_extension(p@, ext@));
    out
}

pub fn lower_extension_chars(p: &[char]) -> (r: Vec<char>)
    ensures
        r@ == lower_extension_of(p@),
{
    match extension_chars(p) {
        Some(e) => lower_chars(e.as_slice()),
        None => {
            let v: Vec<char> = Vec::new();
            assert(v@ =~= Seq::<char>::empty());
            v
        },
    }
}

pub fn inside_root_chars(root: &[char], path: &[char]) -> (r: bool)
    ensures
        r == inside_root(root@, path@),
{
    if chars_eq(root, path) {
        return true;
    }
    proof {
        if root@.len() > 0 {
            assert(root@.last() == root@[root@.len() - 1]);
        }
    }
    if root.len() > 0 && (root[root.len() - 1] == '/' || root[root.len() - 1] == '\\')
        && starts_with_chars(path, root) {
        return true;
    }
    let mut with_slash = slice_chars(root, 0, root.len());
    with_slash.push('/');
    assert(with_slash@ =~= root@ + seq!['/']);
    if starts_with_chars(path, with_slash.as_slice()) {
        return true;
    }
    let mut with_back = slice_chars(root, 0, root.len());
    with_back.push('\\');
    assert(with_back@ =~= root@ + seq!['\\']);
    starts_with_chars(path, with_back.as_slice())
}

/// Index of the first separator in `s`, or -1.
pub open spec fn first_sep_of(s: Seq<char>) -> int
    decreases s.len(),
{
    if s.len() == 0 {
        -1
    } else if is_sep(s[0]) {
        0
    } else {
        let k = first_sep_of(s.drop_first());
        if k < 0 {
            -1
        } else {
            k + 1
        }
    }
}

pub proof fn lemma_first_sep_bounds(s: Seq<char>)
    ensures
        -1 <= first_sep_of(s) < s.len(),
    decreases s.len(),
{
    if s.len() > 0 && !is_sep(s[0]) {
        lemma_first_sep_bounds(s.drop_first());
    }
}

pub proof fn lemma_first_sep_unique(s: Seq<char>, k: int)
    requires
        -1 <= k < s.len(),
        k >= 0 ==> is_sep(s[k]),
        forall|j: int| 0 <= j < s.len() && (k < 0 || j < k) ==> !is_sep(#[trigger] s[j]),
    ensures
        first_sep_of(s) == k,
    decreases s.len(),
{
    if s.len() > 0 && k != 0 {
        assert(!is_sep(s[0]));
        let t = s.drop_first();
        assert forall|j: int| 0 <= j < t.len() && (k - 1 < 0 || j < k - 1) implies !is_sep(#[trigger] t[j]) by {
            assert(t[j] == s[j + 1]);
        }
        if k > 0 {
            assert(t[k - 1] == s[k]);
            lemma_first_sep_unique(t, k - 1);
        } else {
            lemma_first_sep_unique(t, -1);
        }
    }
}

/// Index of the first separator in `s`.
pub fn first_sep(s: &[char]) -> (r: Option<usize>)
    ensures
        match r {
            Some(i) => i as int == first_sep_of(s@),
            None => first_sep_of(s@) == -1,
        },
{
    let mut i: usize = 0;
    while i < s.len()
        invariant
            i <= s@.len(),
            forall|j: int| 0 <= j < i ==> !is_sep(#[trigger] s@[j]),
        decreases s@.len() - i,
    {
        if s[i] == '/' || s[i] == '\\' {
            proof {
                lemma_first_sep_unique(s@, i as int);
            }
            return Some(i);
        }
        i = i + 1;
    }
    proof {
        lemma_first_sep_unique(s@, -1);
    }
    None
}

/// A name without separators, other than `.` and `..`, is the file name
/// of itself placed in any folder.
pub proof fn lemma_join_file_name(dir: Seq<char>, name: Seq<char>)
    requires
        name.len() > 0,
        name != seq!['.'],
        name != seq!['.', '.'],
        forall|k: int| 0 <= k < name.len() ==> !is_sep(#[trigger] name[k]),
    ensures
        file_name(join(dir, name)) == name,
{
    let j = join(dir, name);
    let k: int = if dir.len() == 0 {
        -1
    } else if is_sep(dir.last()) {
        dir.len() - 1
    } else {
        dir.len() as int
    };
    assert(j.len() == k + 1 + name.len());
    assert forall|m: int| k < m < j.len() implies #[trigger] j[m] == name[m - k - 1] by {}
    assert(j.last() == name.last());
    assert(!is_sep(name[name.len() - 1]));
    if name.len() == 1 {
        assert(name =~= seq![name[0]]);
        assert(name[0] != '.');
    } else {
        assert(j[j.len() - 2] == name[name.len() - 2]);
        assert(!is_sep(name[name.len() - 2]));
    }
    assert(!ends_in_filler(j));
    assert(trim_end(j) =~= j);
    assert forall|m: int| k < m < j.len() implies !is_sep(#[trigger] j[m]) by {
        assert(j[m] == name[m - k - 1]);
    }
    if k >= 0 {
        assert(is_sep(j[k]));
    }
    lemma_last_sep_unique(j, k);
    assert(last_component(j) =~= name);
}

/// The file name of a path holds no separator.
pub proof fn lemma_file_name_has_no_sep(p: Seq<char>)
    ensures
        forall|k: int| 0 <= k < file_name(p).len() ==> !is_sep(#[trigger] file_name(p)[k]),
{
    lemma_trimmed_len(p);
    let t = trim_end(p);
    lemma_last_sep_bounds(t);
    let c = last_component(p);
    assert forall|k: int| 0 <= k < c.len() implies !is_sep(#[trigger] c[k]) by {
        assert(c[k] == t[sep_index(p) + 1 + k]);
    }
}

/// The extension of a path holds no separator.
pub proof fn lemma_extension_has_no_sep(p: Seq<char>)
    ensures
        extension(p) matches Some(e) ==> forall|k: int| 0 <= k < e.len() ==> !is_sep(#[trigger] e[k]),
{
    lemma_file_name_has_no_sep(p);
    let n = file_name(p);
    let d = dot_index(p);
    lemma_last_index_bounds(n, '.');
    if extension(p) is Some {
        let e = extension(p).unwrap();
        assert forall|k: int| 0 <= k < e.len() implies !is_sep(#[trigger] e[k]) by {
            assert(e[k] == n[d + 1 + k]);
        }
    }
}

/// No character of `s` is a separator.
pub open spec fn no_seps(s: Seq<char>) -> bool {
    forall|k: int| 0 <= k < s.len() ==> !is_sep(#[trigger] s[k])
}

/// A name without separators, other than `.`, placed in a folder has that
/// folder as its parent, read without its trailing separators.
pub proof fn lemma_parent_join(dir: Seq<char>, name: Seq<char>)
    requires
        name.len() > 0,
        name != seq!['.'],
        no_seps(name),
    ensures
        parent(join(dir, name)) == Some(trim_end(dir)),
{
    let j = join(dir, name);
    let k: int = if dir.len() == 0 {
        -1
    } else if is_sep(dir.last()) {
        dir.len() - 1
    } else {
        dir.len() as int
    };
    assert(j.len() == k + 1 + name.len());
    assert forall|m: int| k < m < j.len() implies #[trigger] j[m] == name[m - k - 1] by {}
    assert(j.last() == name.last());
    assert(!is_sep(name[name.len() - 1]));
    if name.len() == 1 {
        assert(name =~= seq![name[0]]);
    } else {
        assert(j[j.len() - 2] == name[name.len() - 2]);
        assert(!is_sep(name[name.len() - 2]));
    }
    assert(!ends_in_filler(j));
    assert(trim_end(j) =~= j);
    assert forall|m: int| k < m < j.len() implies !is_sep(#[trigger] j[m]) by {
        assert(j[m] == name[m - k - 1]);
    }
    if k >= 0 {
        assert(is_sep(j[k]));
    }
    lemma_last_sep_unique(j, k);
    if dir.len() == 0 {
        assert(trim_end(dir) =~= Seq::<char>::empty());
    } else if is_sep(dir.last()) {
        assert(j.subrange(0, k + 1) =~= dir);
    } else {
        let d2 = j.subrange(0, k + 1);
        assert(d2 =~= dir + seq!['/']);
        assert(d2.drop_last() =~= dir);
        assert(ends_in_filler(d2));
        lemma_trimmed_len(dir);
        assert(trim_end(d2) =~= trim_end(dir));
    }
}

} // verus!



