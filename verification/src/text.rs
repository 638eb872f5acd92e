//! Character-level text helpers shared by the path model and the argument
//! builders. Text is handled as sequences of `char`.
use vstd::prelude::*;

verus! {

/// The characters of `s`, in order.
#[verifier::external_body]
pub fn chars_of(s: &str) -> (r: Vec<char>)
    ensures
        r@ == s@,
{
    s.chars().collect()
}

/// A `String` holding exactly the characters of `v`.
#[verifier::external_body]
pub fn string_of(v: &[char]) -> (r: String)
    ensures
        r@ == v@,
{
    v.iter().collect()
}

/// ASCII lower-casing of one character; every other character is unchanged.
pub open spec fn lower_char(c: char) -> char {
    if 'A' <= c && c <= 'Z' {
        ((c as u32) + 32) as char
    } else {
        c
    }
}

pub open spec fn lower_text(s: Seq<char>) -> Seq<char> {
    s.map_values(|c: char| lower_char(c))
}

/// `needle` occurs in `hay` starting at index `i`.
pub open spec fn occurs_at(hay: Seq<char>, needle: Seq<char>, i: int) -> bool {
    0 <= i && i + needle.len() <= hay.len() && hay.subrange(i, i + needle.len()) == needle
}

pub open spec fn contains_text(hay: Seq<char>, needle: Seq<char>) -> bool {
    exists|i: int| occurs_at(hay, needle, i)
}

pub open spec fn starts_with(s: Seq<char>, prefix: Seq<char>) -> bool {
    occurs_at(s, prefix, 0)
}

pub open spec fn ends_with(s: Seq<char>, suffix: Seq<char>) -> bool {
    suffix.len() <= s.len() && occurs_at(s, suffix, s.len() - suffix.len())
}

/// The characters Rust's `char::is_whitespace` accepts (Unicode `White_Space`).
pub open spec fn is_white(c: char) -> bool {
    ||| c == ' '
    ||| ('\t' <= c && c <= '\r')
    ||| c == '\u{85}'
    ||| c == '\u{A0}'
    ||| c == '\u{1680}'
    ||| ('\u{2000}' <= c && c <= '\u{200A}')
    ||| c == '\u{2028}'
    ||| c == '\u{2029}'
    ||| c == '\u{202F}'
    ||| c == '\u{205F}'
    ||| c == '\u{3000}'
}

/// Index of the first non-white character, or `s.len()`.
pub open spec fn trim_start_index(s: Seq<char>) -> int
    decreases s.len(),
{
    if s.len() == 0 {
        0
    } else if is_white(s[0]) {
        1 + trim_start_index(s.drop_first())
    } else {
        0
    }
}

/// One past the last non-white character, or 0.
pub open spec fn trim_end_index(s: Seq<char>) -> int
    decreases s.len(),
{
    if s.len() == 0 {
        0
    } else if is_white(s.last()) {
        trim_end_index(s.drop_last())
    } else {
        s.len() as int
    }
}

pub open spec fn trim_start(s: Seq<char>) -> Seq<char> {
    s.subrange(trim_start_index(s), s.len() as int)
}

pub open spec fn trim(s: Seq<char>) -> Seq<char> {
    trim_start(s.subrange(0, trim_end_index(s)))
}

/// One decimal digit.
pub open spec fn digit_char(d: nat) -> char {
    ((d % 10) + 48) as char
}

/// Decimal notation of a natural number, without leading zeros.
pub open spec fn decimal(n: nat) -> Seq<char>
    decreases n,
{
    if n < 10 {
        seq![digit_char(n)]
    } else {
        decimal(n / 10).push(digit_char(n % 10))
    }
}

/// Every occurrence of `from` replaced by `to`.
pub open spec fn replace_char(s: Seq<char>, from: char, to: Seq<char>) -> Seq<char>
    decreases s.len(),
{
    if s.len() == 0 {
        seq![]
    } else {
        replace_char(s.drop_last(), from, to) + (if s.last() == from {
            to
        } else {
            seq![s.last()]
        })
    }
}

pub proof fn lemma_trim_start_bounds(s: Seq<char>)
    ensures
        0 <= trim_start_index(s) <= s.len(),
        forall|i: int| 0 <= i < trim_start_index(s) ==> is_white(#[trigger] s[i]),
        trim_start_index(s) < s.len() ==> !is_white(s[trim_start_index(s)]),
    decreases s.len(),
{
    if s.len() > 0 && is_white(s[0]) {
        lemma_trim_start_bounds(s.drop_first());
        assert forall|i: int| 0 <= i < trim_start_index(s) implies is_white(#[trigger] s[i]) by {
            if i > 0 {
                assert(s[i] == s.drop_first()[i - 1]);
            }
        }
        if trim_start_index(s) < s.len() {
            assert(s[trim_start_index(s)] == s.drop_first()[trim_start_index(s.drop_first())]);
        }
    }
}

pub proof fn lemma_trim_end_bounds(s: Seq<char>)
    ensures
        0 <= trim_end_index(s) <= s.len(),
        forall|i: int| trim_end_index(s) <= i < s.len() ==> is_white(#[trigger] s[i]),
        trim_end_index(s) > 0 ==> !is_white(s[trim_end_index(s) - 1]),
    decreases s.len(),
{
    if s.len() > 0 && is_white(s.last()) {
        lemma_trim_end_bounds(s.drop_last());
        assert forall|i: int| trim_end_index(s) <= i < s.len() implies is_white(#[trigger] s[i]) by {
            if i < s.len() - 1 {
                assert(s[i] == s.drop_last()[i]);
            }
        }
        if trim_end_index(s) > 0 {
            assert(s[trim_end_index(s) - 1] == s.drop_last()[trim_end_index(s) - 1]);
        }
    }
}

/// Characterizes `trim_start_index` by its defining properties.
pub proof fn lemma_trim_start_unique(s: Seq<char>, k: int)
    requires
        0 <= k <= s.len(),
        forall|i: int| 0 <= i < k ==> is_white(#[trigger] s[i]),
        k < s.len() ==> !is_white(s[k]),
    ensures
        trim_start_index(s) == k,
    decreases s.len(),
{
    if s.len() > 0 && k > 0 {
        assert(is_white(s[0]));
        assert forall|i: int| 0 <= i < k - 1 implies is_white(#[trigger] s.drop_first()[i]) by {
            assert(s.drop_first()[i] == s[i + 1]);
        }
        if k - 1 < s.drop_first().len() {
            assert(s.drop_first()[k - 1] == s[k]);
        }
        lemma_trim_start_unique(s.drop_first(), k - 1);
    }
}

/// Characterizes `trim_end_index` by its defining properties.
pub proof fn lemma_trim_end_unique(s: Seq<char>, k: int)
    requires
        0 <= k <= s.len(),
        forall|i: int| k <= i < s.len() ==> is_white(#[trigger] s[i]),
        k > 0 ==> !is_white(s[k - 1]),
    ensures
        trim_end_index(s) == k,
    decreases s.len(),
{
    if s.len() > 0 && k < s.len() {
        assert(is_white(s[s.len() - 1]));
        assert forall|i: int| k <= i < s.drop_last().len() implies is_white(
            #[trigger] s.drop_last()[i],
        ) by {
            assert(s.drop_last()[i] == s[i]);
        }
        if k > 0 {
            assert(s.drop_last()[k - 1] == s[k - 1]);
        }
        lemma_trim_end_unique(s.drop_last(), k);
    }
}

pub fn is_white_char(c: char) -> (r: bool)
    ensures
        r == is_white(c),
{
    c == ' ' || ('\t' <= c && c <= '\r') || c == '\u{85}' || c == '\u{A0}' || c == '\u{1680}' || (
    '\u{2000}' <= c && c <= '\u{200A}') || c == '\u{2028}' || c == '\u{2029}' || c == '\u{202F}'
        || c == '\u{205F}' || c == '\u{3000}'
}

pub fn to_lower_char(c: char) -> (r: char)
    ensures
        r == lower_char(c),
{
    if 'A' <= c && c <= 'Z' {
        let b = c as u8;
        (b + 32) as char
    } else {
        c
    }
}

/// ASCII lower-case copy of `s`.
pub fn lower_chars(s: &[char]) -> (r: Vec<char>)
    ensures
        r@ == lower_text(s@),
{
    let mut out: Vec<char> = Vec::new();
    let mut i: usize = 0;
    while i < s.len()
        invariant
            i <= s@.len(),
            out@ == lower_text(s@.subrange(0, i as int)),
        decreases s@.len() - i,
    {
        let c = to_lower_char(s[i]);
        out.push(c);
        i = i + 1;
        assert(out@ =~= lower_text(s@.subrange(0, i as int)));
    }
    assert(s@.subrange(0, s@.len() as int) =~= s@);
    out
}

pub fn chars_eq(a: &[char], b: &[char]) -> (r: bool)
    ensures
        r == (a@ == b@),
{
    if a.len() != b.len() {
        return false;
    }
    let mut i: usize = 0;
    while i < a.len()
        invariant
            a@.len() == b@.len(),
            i <= a@.len(),
            forall|j: int| 0 <= j < i ==> a@[j] == b@[j],
        decreases a@.len() - i,
    {
        if a[i] != b[i] {
            return false;
        }
        i = i + 1;
    }
    assert(a@ =~= b@);
    true
}

/// Whether `needle` occurs in `hay` at index `at`.
pub fn occurs_at_exec(hay: &[char], needle: &[char], at: usize) -> (r: bool)
    ensures
        r == occurs_at(hay@, needle@, at as int),
{
    if at > hay.len() || needle.len() > hay.len() - at {
        return false;
    }
    let mut j: usize = 0;
    while j < needle.len()
        invariant
            at as int + needle@.len() <= hay@.len(),
            hay@.len() == hay.len(),
            needle@.len() == needle.len(),
            j <= needle@.len(),
            forall|k: int| 0 <= k < j ==> hay@[at + k] == needle@[k],
        decreases needle@.len() - j,
    {
        if hay[at + j] != needle[j] {
            assert(hay@.subrange(at as int, at + needle@.len())[j as int] != needle@[j as int]);
            return false;
        }
        j = j + 1;
    }
    assert(hay@.subrange(at as int, at + needle@.len()) =~= needle@);
    true
}

pub fn contains_chars(hay: &[char], needle: &[char]) -> (r: bool)
    ensures
        r == contains_text(hay@, needle@),
{
    if needle.len() > hay.len() {
        assert forall|k: int| !occurs_at(hay@, needle@, k) by {}
        return false;
    }
    let last = hay.len() - needle.len();
    let mut i: usize = 0;
    while i < last
        invariant
            last == hay@.len() - needle@.len(),
            i <= last,
            forall|k: int| 0 <= k < i ==> !occurs_at(hay@, needle@, k),
        decreases last - i,
    {
        if occurs_at_exec(hay, needle, i) {
            return true;
        }
        i = i + 1;
    }
    if occurs_at_exec(hay, needle, last) {
        return true;
    }
    assert forall|k: int| !occurs_at(hay@, needle@, k) by {
        if 0 <= k && k + needle@.len() <= hay@.len() {
            assert(k < i || k == last);
        }
    }
    false
}

pub fn starts_with_chars(s: &[char], prefix: &[char]) -> (r: bool)
    ensures
        r == starts_with(s@, prefix@),
{
    occurs_at_exec(s, prefix, 0)
}

pub fn ends_with_chars(s: &[char], suffix: &[char]) -> (r: bool)
    ensures
        r == ends_with(s@, suffix@),
{
    if suffix.len() > s.len() {
        return false;
    }
    occurs_at_exec(s, suffix, s.len() - suffix.len())
}

/// Bounds of `s` without its leading and trailing white space.
pub fn trim_bounds(s: &[char]) -> (r: (usize, usize))
    ensures
        r.0 <= r.1 <= s@.len(),
        s@.subrange(r.0 as int, r.1 as int) == trim(s@),
{
    let mut end: usize = s.len();
    while end > 0 && is_white_char(s[end - 1])
        invariant
            end <= s@.len(),
            forall|i: int| end <= i < s@.len() ==> is_white(#[trigger] s@[i]),
        decreases end,
    {
        end = end - 1;
    }
    proof {
        lemma_trim_end_unique(s@, end as int);
    }
    let mut start: usize = 0;
    while start < end && is_white_char(s[start])
        invariant
            start <= end <= s@.len(),
            forall|i: int| 0 <= i < start ==> is_white(#[trigger] s@[i]),
        decreases end - start,
    {
        start = start + 1;
    }
    proof {
        let t = s@.subrange(0, end as int);
        assert forall|i: int| 0 <= i < start implies is_white(#[trigger] t[i]) by {
            assert(t[i] == s@[i]);
        }
        if start < t.len() {
            assert(t[start as int] == s@[start as int]);
        }
        lemma_trim_start_unique(t, start as int);
        assert(t.subrange(start as int, t.len() as int) =~= s@.subrange(start as int, end as int));
    }
    (start, end)
}

/// `s` without leading and trailing white space.
pub fn trimmed(s: &[char]) -> (r: Vec<char>)
    ensures
        r@ == trim(s@),
{
    let (a, b) = trim_bounds(s);
    slice_chars(s, a, b)
}

/// The characters of `s` in `[from, to)`.
pub fn slice_chars(s: &[char], from: usize, to: usize) -> (r: Vec<char>)
    requires
        from <= to <= s@.len(),
    ensures
        r@ == s@.subrange(from as int, to as int),
{
    let mut out: Vec<char> = Vec::new();
    let mut i: usize = from;
    while i < to
        invariant
            from <= i <= to <= s@.len(),
            out@ == s@.subrange(from as int, i as int),
        decreases to - i,
    {
        out.push(s[i]);
        i = i + 1;
        assert(out@ =~= s@.subrange(from as int, i as int));
    }
    out
}

/// Appends all of `extra` to `out`.
pub fn push_all(out: &mut Vec<char>, extra: &[char])
    ensures
        final(out)@ == old(out)@ + extra@,
{
    let ghost start = out@;
    let mut i: usize = 0;
    while i < extra.len()
        invariant
            i <= extra@.len(),
            out@ == start + extra@.subrange(0, i as int),
        decreases extra@.len() - i,
    {
        out.push(extra[i]);
        i = i + 1;
        assert(out@ =~= start + extra@.subrange(0, i as int));
    }
    assert(extra@.subrange(0, extra@.len() as int) =~= extra@);
}

/// Appends the characters of `extra` to `out`.
pub fn push_str(out: &mut Vec<char>, extra: &str)
    ensures
        final(out)@ == old(out)@ + extra@,
{
    let v = chars_of(extra);
    push_all(out, v.as_slice());
}

/// Index of the first `c` in `s`.
pub fn find_char(s: &[char], c: char) -> (r: Option<usize>)
    ensures
        match r {
            Some(i) => i < s@.len() && s@[i as int] == c && forall|j: int|
                0 <= j < i ==> s@[j] != c,
            None => forall|j: int| 0 <= j < s@.len() ==> s@[j] != c,
        },
{
    let mut i: usize = 0;
    while i < s.len()
        invariant
            i <= s@.len(),
            forall|j: int| 0 <= j < i ==> s@[j] != c,
        decreases s@.len() - i,
    {
        if s[i] == c {
            return Some(i);
        }
        i = i + 1;
    }
    None
}

/// Decimal notation of `n`.
pub fn decimal_chars(n: u64) -> (r: Vec<char>)
    ensures
        r@ == decimal(n as nat),
{
    decimal_chars_wide(n as u128)
}

/// Decimal notation of a 128-bit `n`.
pub fn decimal_chars_wide(n: u128) -> (r: Vec<char>)
    ensures
        r@ == decimal(n as nat),
    decreases n,
{
    if n < 10 {
        let c = ((n as u8) + 48) as char;
        let mut v: Vec<char> = Vec::new();
        v.push(c);
        assert(v@ =~= seq![digit_char(n as nat)]);
        v
    } else {
        let mut v = decimal_chars_wide(n / 10);
        let d = ((n % 10) as u8 + 48) as char;
        v.push(d);
        v
    }
}

/// Decimal notation of `n` as a `String`.
pub fn decimal_string(n: u64) -> (r: String)
    ensures
        r@ == decimal(n as nat),
{
    let v = decimal_chars(n);
    string_of(v.as_slice())
}

/// Copy of `s` with every `from` replaced by `to`.
pub fn replace_chars(s: &[char], from: char, to: &[char]) -> (r: Vec<char>)
    ensures
        r@ == replace_char(s@, from, to@),
{
    let mut out: Vec<char> = Vec::new();
    let mut i: usize = 0;
    while i < s.len()
        invariant
            i <= s@.len(),
            out@ == replace_char(s@.subrange(0, i as int), from, to@),
        decreases s@.len() - i,
    {
        let ghost before = s@.subrange(0, i as int);
        if s[i] == from {
            push_all(&mut out, to);
        } else {
            out.push(s[i]);
        }
        i = i + 1;
        proof {
            let now = s@.subrange(0, i as int);
            assert(now.drop_last() =~= before);
            assert(now.last() == s@[i - 1]);
        }
    }
    assert(s@.subrange(0, s@.len() as int) =~= s@);
    out
}

/// The texts of a list of strings.
pub open spec fn views(v: Seq<String>) -> Seq<Seq<char>> {
    v.map_values(|s: String| s@)
}

pub proof fn lemma_views_push(v: Seq<String>, s: String)
    ensures
        views(v.push(s)) == views(v).push(s@),
{
    assert(views(v.push(s)) =~= views(v).push(s@));
}

/// Appends the text `s` to a list of strings.
pub fn push_lit(v: &mut Vec<String>, s: &str)
    ensures
        views(final(v)@) == views(old(v)@).push(s@),
{
    let t = String::from_str(s);
    proof {
        lemma_views_push(v@, t);
    }
    v.push(t);
}

/// Appends `s` to a list of strings.
pub fn push_string(v: &mut Vec<String>, s: String)
    ensures
        views(final(v)@) == views(old(v)@).push(s@),
{
    proof {
        lemma_views_push(v@, s);
    }
    v.push(s);
}

/// Appends every string of `extra`.
pub fn push_strings(v: &mut Vec<String>, extra: Vec<String>)
    ensures
        views(final(v)@) == views(old(v)@) + views(extra@),
{
    let ghost start = views(v@);
    let mut i: usize = 0;
    while i < extra.len()
        invariant
            i <= extra@.len(),
            views(v@) == start + views(extra@).subrange(0, i as int),
        decreases extra@.len() - i,
    {
        push_string(v, extra[i].clone());
        i = i + 1;
        assert(views(v@) =~= start + views(extra@).subrange(0, i as int));
    }
    assert(views(extra@).subrange(0, extra@.len() as int) =~= views(extra@));
}

/// Index of the first `c` in `s`, or -1.
pub open spec fn first_index_of(s: Seq<char>, c: char) -> int
    decreases s.len(),
{
    if s.len() == 0 {
        -1
    } else if s[0] == c {
        0
    } else {
        let k = first_index_of(s.drop_first(), c);
        if k < 0 {
            -1
        } else {
            k + 1
        }
    }
}

pub proof fn lemma_first_index_unique(s: Seq<char>, c: char, k: int)
    requires
        -1 <= k < s.len(),
        k >= 0 ==> s[k] == c,
        forall|j: int| 0 <= j < s.len() && (k < 0 || j < k) ==> s[j] != c,
    ensures
        first_index_of(s, c) == k,
    decreases s.len(),
{
    if s.len() > 0 && k != 0 {
        assert(s[0] != c);
        let t = s.drop_first();
        assert forall|j: int| 0 <= j < t.len() && (k - 1 < 0 || j < k - 1) implies t[j] != c by {
            assert(t[j] == s[j + 1]);
        }
        if k > 0 {
            assert(t[k - 1] == s[k]);
            lemma_first_index_unique(t, c, k - 1);
        } else {
            lemma_first_index_unique(t, c, -1);
        }
    }
}

pub proof fn lemma_first_index_bounds(s: Seq<char>, c: char)
    ensures
        -1 <= first_index_of(s, c) < s.len(),
    decreases s.len(),
{
    if s.len() > 0 && s[0] != c {
        lemma_first_index_bounds(s.drop_first(), c);
    }
}

/// A line without the `\r` of a `\r\n` ending.
pub open spec fn strip_cr(l: Seq<char>) -> Seq<char> {
    if l.len() > 0 && l.last() == '\r' {
        l.drop_last()
    } else {
        l
    }
}

/// The lines of `s` as `str::lines` yields them: split at `\n`, a `\r`
/// before the `\n` removed, no empty line after a final line ending.
pub open spec fn spec_lines(s: Seq<char>) -> Seq<Seq<char>>
    decreases s.len(),
{
    if s.len() == 0 {
        Seq::empty()
    } else {
        let k = first_index_of(s, '\n');
        proof {
            lemma_first_index_bounds(s, '\n');
        }
        if k < 0 {
            seq![s]
        } else {
            seq![strip_cr(s.subrange(0, k))] + spec_lines(s.subrange(k + 1, s.len() as int))
        }
    }
}

pub open spec fn seqs(v: Seq<Vec<char>>) -> Seq<Seq<char>> {
    v.map_values(|x: Vec<char>| x@)
}

pub fn strip_cr_exec(l: Vec<char>) -> (r: Vec<char>)
    ensures
        r@ == strip_cr(l@),
{
    if l.len() > 0 && l[l.len() - 1] == '\r' {
        let mut m = l;
        m.pop();
        assert(m@ =~= l@.drop_last());
        m
    } else {
        l
    }
}

/// The lines of `s`.
pub fn lines_of(s: &[char]) -> (r: Vec<Vec<char>>)
    ensures
        seqs(r@) == spec_lines(s@),
{
    let mut out: Vec<Vec<char>> = Vec::new();
    let mut pos: usize = 0;
    assert(s@.subrange(0, s@.len() as int) =~= s@);
    while pos < s.len()
        invariant
            pos <= s@.len(),
            spec_lines(s@) == seqs(out@) + spec_lines(s@.subrange(pos as int, s@.len() as int)),
        decreases s@.len() - pos,
    {
        let ghost rest = s@.subrange(pos as int, s@.len() as int);
        let mut k: usize = pos;
        while k < s.len() && s[k] != '\n'
            invariant
                pos <= k <= s@.len(),
                forall|j: int| pos <= j < k ==> s@[j] != '\n',
            decreases s@.len() - k,
        {
            k = k + 1;
        }
        let piece = slice_chars(s, pos, k);
        if k < s.len() {
            let line = strip_cr_exec(piece);
            proof {
                lemma_first_index_unique(rest, '\n', k - pos);
                assert(rest.subrange(0, k - pos) =~= s@.subrange(pos as int, k as int));
                assert(rest.subrange(k - pos + 1, rest.len() as int) =~= s@.subrange(
                    k + 1,
                    s@.len() as int,
                ));
                assert(spec_lines(rest) == seq![line@] + spec_lines(
                    s@.subrange(k + 1, s@.len() as int),
                ));
                assert(seqs(out@.push(line)) =~= seqs(out@).push(line@));
                assert(seqs(out@) + spec_lines(rest) =~= seqs(out@.push(line)) + spec_lines(
                    s@.subrange(k + 1, s@.len() as int),
                ));
            }
            out.push(line);
            pos = k + 1;
        } else {
            proof {
                lemma_first_index_unique(rest, '\n', -1);
                assert(s@.subrange(pos as int, k as int) =~= rest);
                assert(spec_lines(rest) == seq![rest]);
                assert(seqs(out@.push(piece)) =~= seqs(out@).push(piece@));
                assert(s@.subrange(s@.len() as int, s@.len() as int) =~= Seq::<char>::empty());
                assert(spec_lines(Seq::<char>::empty()) =~= Seq::<Seq<char>>::empty());
                assert(seqs(out@) + spec_lines(rest) =~= seqs(out@.push(piece)) + spec_lines(
                    s@.subrange(k as int, s@.len() as int),
                ));
            }
            out.push(piece);
            pos = k;
        }
    }
    assert(s@.subrange(pos as int, s@.len() as int) =~= Seq::<char>::empty());
    out
}

/// First index at or after `i` that is not white space (or the length).
pub open spec fn skip_white(s: Seq<char>, i: int) -> int
    decreases s.len() - i,
{
    if i < 0 || i >= s.len() {
        s.len() as int
    } else if is_white(s[i]) {
        skip_white(s, i + 1)
    } else {
        i
    }
}

/// First index at or after `i` that is white space (or the length).
pub open spec fn skip_word(s: Seq<char>, i: int) -> int
    decreases s.len() - i,
{
    if i < 0 || i >= s.len() {
        s.len() as int
    } else if !is_white(s[i]) {
        skip_word(s, i + 1)
    } else {
        i
    }
}

/// The second white-space-separated word of `s`, as
/// `split_whitespace().nth(1)` gives it.
pub open spec fn second_word(s: Seq<char>) -> Option<Seq<char>> {
    let a = skip_white(s, 0);
    let b = skip_word(s, a);
    let c = skip_white(s, b);
    let d = skip_word(s, c);
    if c < s.len() {
        Some(s.subrange(c, d))
    } else {
        None
    }
}

pub proof fn lemma_skip_bounds(s: Seq<char>, i: int)
    requires
        0 <= i,
    ensures
        i <= skip_white(s, i) || i > s.len(),
        skip_white(s, i) <= s.len(),
        i <= skip_word(s, i) || i > s.len(),
        skip_word(s, i) <= s.len(),
    decreases s.len() - i,
{
    if i < s.len() {
        lemma_skip_bounds(s, i + 1);
    }
}

pub fn skip_white_exec(s: &[char], i: usize) -> (r: usize)
    ensures
        r as int == skip_white(s@, i as int),
{
    let mut k = i;
    if k >= s.len() {
        return s.len();
    }
    while k < s.len() && is_white_char(s[k])
        invariant
            i <= k <= s@.len(),
            skip_white(s@, i as int) == skip_white(s@, k as int),
        decreases s@.len() - k,
    {
        k = k + 1;
    }
    k
}

pub fn skip_word_exec(s: &[char], i: usize) -> (r: usize)
    ensures
        r as int == skip_word(s@, i as int),
{
    let mut k = i;
    if k >= s.len() {
        return s.len();
    }
    while k < s.len() && !is_white_char(s[k])
        invariant
            i <= k <= s@.len(),
            skip_word(s@, i as int) == skip_word(s@, k as int),
        decreases s@.len() - k,
    {
        k = k + 1;
    }
    k
}

pub fn second_word_exec(s: &[char]) -> (r: Option<Vec<char>>)
    ensures
        match r {
            Some(w) => second_word(s@) == Some(w@),
            None => second_word(s@) is None,
        },
{
    let a = skip_white_exec(s, 0);
    let b = skip_word_exec(s, a);
    let c = skip_white_exec(s, b);
    let d = skip_word_exec(s, c);
    proof {
        lemma_skip_bounds(s@, 0);
        lemma_skip_bounds(s@, a as int);
        lemma_skip_bounds(s@, b as int);
        lemma_skip_bounds(s@, c as int);
    }
    if c < s.len() {
        Some(slice_chars(s, c, d))
    } else {
        None
    }
}

/// Index of the first non-white character of `s`.
pub fn trim_start_exec(s: &[char]) -> (r: usize)
    ensures
        r as int == trim_start_index(s@),
        r <= s@.len(),
{
    let mut start: usize = 0;
    while start < s.len() && is_white_char(s[start])
        invariant
            start <= s@.len(),
            forall|i: int| 0 <= i < start ==> is_white(#[trigger] s@[i]),
        decreases s@.len() - start,
    {
        start = start + 1;
    }
    proof {
        lemma_trim_start_unique(s@, start as int);
    }
    start
}

/// Unicode lower case of a text, as `str::to_lowercase` computes it.
pub uninterp spec fn unicode_lower(s: Seq<char>) -> Seq<char>;

/// Every character of `s` is ASCII.
pub open spec fn is_ascii_text(s: Seq<char>) -> bool {
    forall|i: int| 0 <= i < s.len() ==> (#[trigger] s[i] as u32) < 128
}

/// The lower-case form of `s` by the Unicode `Lowercase` property.
///
/// Calls `str::to_lowercase`. The result is named: in general it depends on
/// Unicode case tables that only std holds. For ASCII text it is stated:
/// `A`–`Z` become `a`–`z` and every other character stays.
#[verifier::external_body]
pub fn to_lowercase(s: &str) -> (r: String)
    ensures
        r@ == unicode_lower(s@),
        is_ascii_text(s@) ==> r@ == lower_text(s@),
{
    s.to_lowercase()
}

} // verus!

verus! {

/// A digit is the character of its value, and never a `.`.
pub proof fn lemma_digit_char(d: nat)
    ensures
        digit_char(d) != '.',
        digit_char(d) as u32 == (d % 10) + 48,
{
}

/// Decimal notation is never empty and holds no `.`.
pub proof fn lemma_decimal_has_no_dot(n: nat)
    ensures
        decimal(n).len() >= 1,
        n >= 10 ==> decimal(n).len() >= 2,
        forall|k: int| 0 <= k < decimal(n).len() ==> #[trigger] decimal(n)[k] != '.',
    decreases n,
{
    if n >= 10 {
        lemma_decimal_has_no_dot(n / 10);
        lemma_digit_char(n % 10);
        let s = decimal(n);
        assert forall|k: int| 0 <= k < s.len() implies #[trigger] s[k] != '.' by {
            if k < s.len() - 1 {
                assert(s[k] == decimal(n / 10)[k]);
            }
        }
    } else {
        lemma_digit_char(n);
    }
}

/// Different numbers have different decimal notations.
pub proof fn lemma_decimal_injective(a: nat, b: nat)
    requires
        decimal(a) == decimal(b),
    ensures
        a == b,
    decreases a,
{
    lemma_decimal_has_no_dot(a);
    lemma_decimal_has_no_dot(b);
    if a < 10 && b < 10 {
        lemma_digit_char(a);
        lemma_digit_char(b);
        assert(decimal(a)[0] == digit_char(a));
        assert(decimal(b)[0] == digit_char(b));
    } else if a >= 10 && b >= 10 {
        let da = decimal(a);
        let db = decimal(b);
        assert(da.last() == digit_char(a % 10));
        assert(db.last() == digit_char(b % 10));
        lemma_digit_char(a % 10);
        lemma_digit_char(b % 10);
        assert(da.drop_last() =~= decimal(a / 10));
        assert(db.drop_last() =~= decimal(b / 10));
        lemma_decimal_injective(a / 10, b / 10);
    }
}

/// Decimal notation holds no path separator.
pub proof fn lemma_decimal_digits_not_sep(n: nat)
    ensures
        forall|k: int| 0 <= k < decimal(n).len() ==> #[trigger] decimal(n)[k] != '/' && decimal(n)[k] != '\\',
    decreases n,
{
    if n >= 10 {
        lemma_decimal_digits_not_sep(n / 10);
        lemma_digit_char(n % 10);
        let s = decimal(n);
        assert forall|k: int| 0 <= k < s.len() implies #[trigger] s[k] != '/' && s[k] != '\\' by {
            if k < s.len() - 1 {
                assert(s[k] == decimal(n / 10)[k]);
            }
        }
    } else {
        lemma_digit_char(n);
    }
}

/// Decimal notation starts with a digit.
pub proof fn lemma_decimal_first_digit(n: nat)
    ensures
        48 <= decimal(n)[0] as u32 <= 57,
    decreases n,
{
    if n >= 10 {
        lemma_decimal_first_digit(n / 10);
        lemma_decimal_has_no_dot(n / 10);
        assert(decimal(n)[0] == decimal(n / 10)[0]);
    } else {
        lemma_digit_char(n);
    }
}

} // verus!


