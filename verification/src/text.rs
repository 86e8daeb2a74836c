//! Character-level text handling: the parts of `str`'s API that the desktop
//! entry reader and the icon lookup use, stated over `Seq<char>`.
use vstd::prelude::*;
use vstd::slice::slice_subrange;
use vstd::string::*;

verus! {

/// Whether `c` has the Unicode `White_Space` property, which
/// `char::is_whitespace` tests: the controls from tab to carriage return,
/// the space, next line, no-break space, Ogham space mark, the spaces from
/// en quad to hair space, the line and paragraph separators, the narrow
/// no-break space, the medium mathematical space and the ideographic space.
pub closed spec fn char_is_whitespace(c: char) -> bool {
    let n = c as u32;
    ||| 0x09 <= n <= 0x0D
    ||| n == 0x20
    ||| n == 0x85
    ||| n == 0xA0
    ||| n == 0x1680
    ||| 0x2000 <= n <= 0x200A
    ||| n == 0x2028
    ||| n == 0x2029
    ||| n == 0x202F
    ||| n == 0x205F
    ||| n == 0x3000
}

/// The lowercase mapping of `s` that `str::to_lowercase` computes.
pub uninterp spec fn str_lowercase(s: Seq<char>) -> Seq<char>;

/// Whether every character of `s` is ASCII.
pub open spec fn is_ascii_chars(s: Seq<char>) -> bool {
    forall|i: int| 0 <= i < s.len() ==> (s[i] as u32) < 0x80
}

/// `c` with an ASCII capital letter mapped to its small letter.
pub open spec fn ascii_lower_char(c: char) -> char {
    if 0x41 <= (c as u32) <= 0x5A {
        ((c as u32) + 0x20) as char
    } else {
        c
    }
}

/// `s` with each ASCII capital letter mapped to its small letter.
pub open spec fn ascii_lower(s: Seq<char>) -> Seq<char> {
    s.map_values(|c: char| ascii_lower_char(c))
}

/// The lowercase form of `s`: the ASCII mapping for ASCII text, else the
/// Unicode mapping that `str_lowercase` names.
pub open spec fn lowercase(s: Seq<char>) -> Seq<char> {
    if is_ascii_chars(s) {
        ascii_lower(s)
    } else {
        str_lowercase(s)
    }
}

/// The stem of the final component of the path `p`, as `Path::file_stem`
/// computes it (`None` where the path has no file name).
pub uninterp spec fn path_file_stem(p: Seq<char>) -> Option<Seq<char>>;

/// Whether `c` is whitespace, as `char::is_whitespace` decides it.
pub(crate) fn is_whitespace(c: char) -> (r: bool)
    ensures
        r == char_is_whitespace(c),
{
    let n = c as u32;
    (0x09 <= n && n <= 0x0D) || n == 0x20 || n == 0x85 || n == 0xA0 || n == 0x1680 || (0x2000 <= n
        && n <= 0x200A) || n == 0x2028 || n == 0x2029 || n == 0x202F || n == 0x205F || n == 0x3000
}

/// `str::to_lowercase`: claims that the result's characters are those that
/// `str_lowercase` names for `s`, and that an ASCII string comes back with
/// its capital letters `A` to `Z` mapped to `a` to `z` and every other
/// character kept (the Unicode lowercase mapping of the ASCII range, which
/// the function's documentation shows on `"HELLO"`, and which it relates to
/// `str::to_ascii_lowercase`, the ASCII-only form of the same mapping).
#[verifier::external_body]
pub(crate) fn to_lowercase(s: &str) -> (r: String)
    ensures
        r@ == str_lowercase(s@),
        is_ascii_chars(s@) ==> r@ == ascii_lower(s@),
{
    s.to_lowercase()
}

/// `String: FromIterator<char>`: claims that collecting the characters of
/// `cs` gives a string with exactly those characters, in order.
#[verifier::external_body]
pub(crate) fn string_from_chars(cs: &[char]) -> (r: String)
    ensures
        r@ == cs@,
{
    cs.iter().collect()
}

/// The characters of an optional string.
pub open spec fn opt_view(o: Option<String>) -> Option<Seq<char>> {
    match o {
        Some(s) => Some(s@),
        None => None,
    }
}

/// `Path::file_stem` on the path `path`: claims that the result is the stem
/// that `path_file_stem` names for `path` (the stem of a `&str` path is
/// valid UTF-8, so the lossy conversion keeps every character).
#[verifier::external_body]
pub(crate) fn file_stem(path: &str) -> (r: Option<String>)
    ensures
        opt_view(r) == path_file_stem(path@),
{
    let stem = std::path::Path::new(path).file_stem()?;
    Some(stem.to_string_lossy().into_owned())
}

/// The characters of `s`, in order.
pub fn chars_of(s: &str) -> (r: Vec<char>)
    ensures
        r@ == s@,
{
    let mut r: Vec<char> = Vec::new();
    for c in it: s.chars()
        invariant
            it.seq() == s@,
            r@ == it.seq().take(it.index() as int),
    {
        r.push(c);
    }
    r
}

/// The characters `cs[start..end]` as a `String`.
pub fn string_of_span(cs: &Vec<char>, start: usize, end: usize) -> (r: String)
    requires
        start <= end <= cs@.len(),
    ensures
        r@ == cs@.subrange(start as int, end as int),
{
    let part = slice_subrange(cs.as_slice(), start, end);
    string_from_chars(part)
}

// ---------------------------------------------------------------------
// Specifications of the `str` operations in use
// ---------------------------------------------------------------------
/// `s` without its leading whitespace (`str::trim_start`).
pub open spec fn trim_start_spec(s: Seq<char>) -> Seq<char>
    decreases s.len(),
{
    if s.len() > 0 && char_is_whitespace(s[0]) {
        trim_start_spec(s.drop_first())
    } else {
        s
    }
}

/// `s` without its trailing whitespace (`str::trim_end`).
pub open spec fn trim_end_spec(s: Seq<char>) -> Seq<char>
    decreases s.len(),
{
    if s.len() > 0 && char_is_whitespace(s.last()) {
        trim_end_spec(s.drop_last())
    } else {
        s
    }
}

/// `s` without leading and trailing whitespace (`str::trim`).
pub open spec fn trim_spec(s: Seq<char>) -> Seq<char> {
    trim_end_spec(trim_start_spec(s))
}

/// The index of the first `c` in `s`, or `s.len()` where there is none.
pub open spec fn first_index_of(s: Seq<char>, c: char) -> int
    decreases s.len(),
{
    if s.len() == 0 {
        0
    } else if s[0] == c {
        0
    } else {
        1 + first_index_of(s.drop_first(), c)
    }
}

/// A line without the carriage return that ends it, if any.
pub open spec fn strip_cr(l: Seq<char>) -> Seq<char> {
    if l.len() > 0 && l.last() == '\r' {
        l.drop_last()
    } else {
        l
    }
}

/// The lines of `s` (`str::lines`): split after each `'\n'`, each line
/// losing its `"\n"` or `"\r\n"` ending; a final ending is optional and an
/// empty text has no lines.
pub open spec fn lines_spec(s: Seq<char>) -> Seq<Seq<char>>
    decreases s.len(),
{
    if s.len() == 0 {
        seq![]
    } else {
        let k = first_index_of(s, '\n');
        if k >= s.len() {
            seq![s]
        } else {
            proof {
                lemma_first_index_of(s, '\n');
            }
            seq![strip_cr(s.take(k))] + lines_spec(s.skip(k + 1))
        }
    }
}

/// The pieces of `s` between occurrences of `c` (`str::split` on a char).
pub open spec fn split_spec(s: Seq<char>, c: char) -> Seq<Seq<char>>
    decreases s.len(),
{
    let k = first_index_of(s, c);
    if k >= s.len() {
        seq![s]
    } else {
        proof {
            lemma_first_index_of(s, c);
        }
        seq![s.take(k)] + split_spec(s.skip(k + 1), c)
    }
}

/// `s` starts with `p` (`str::starts_with`).
pub open spec fn has_prefix(s: Seq<char>, p: Seq<char>) -> bool {
    p.len() <= s.len() && s.take(p.len() as int) == p
}

/// `p` occurs in `s` (`str::contains` with a string pattern).
pub open spec fn contains_seq(s: Seq<char>, p: Seq<char>) -> bool {
    exists|i: int| 0 <= i && i + p.len() <= s.len() && #[trigger] s.subrange(i, i + p.len()) == p
}

/// The part of `s` after its last `c`; all of `s` where there is no `c`
/// (what `s.split(c).last()` yields).
pub open spec fn after_last(s: Seq<char>, c: char) -> Seq<char>
    decreases s.len(),
{
    if s.len() == 0 {
        s
    } else if s.last() == c {
        seq![]
    } else {
        after_last(s.drop_last(), c).push(s.last())
    }
}

/// The part after the last `c` of a text `p`, `c`, `t` where `t` holds no
/// `c` is `t`.
pub proof fn lemma_after_last_of_split(p: Seq<char>, c: char, t: Seq<char>)
    requires
        !t.contains(c),
    ensures
        after_last(p + seq![c] + t, c) == t,
    decreases t.len(),
{
    let s = p + seq![c] + t;
    if t.len() == 0 {
        assert(s.last() == c);
    } else {
        let u = t.drop_last();
        assert(!u.contains(c)) by {
            if u.contains(c) {
                let j = choose|j: int| 0 <= j < u.len() && u[j] == c;
                assert(t[j] == c);
            }
        }
        lemma_after_last_of_split(p, c, u);
        assert(s.drop_last() =~= p + seq![c] + u);
        assert(s.last() == t.last());
        assert(t.last() != c) by {
            if t.last() == c {
                assert(t[t.len() - 1] == c);
            }
        }
        assert(u.push(t.last()) =~= t);
    }
}

/// The part of an ASCII string after its last `/` is ASCII, and lowering
/// the string's letters first gives the lowered part.
pub proof fn lemma_ascii_lower_after_last_slash(s: Seq<char>)
    requires
        is_ascii_chars(s),
    ensures
        is_ascii_chars(after_last(s, '/')),
        ascii_lower(after_last(s, '/')) == after_last(ascii_lower(s), '/'),
    decreases s.len(),
{
    if s.len() > 0 {
        let init = s.drop_last();
        assert(is_ascii_chars(init));
        lemma_ascii_lower_after_last_slash(init);
        assert(ascii_lower(s).drop_last() == ascii_lower(init));
        assert(ascii_lower(s).last() == ascii_lower_char(s.last()));
        if s.last() != '/' {
            assert(ascii_lower_char(s.last()) != '/');
            let a = after_last(init, '/');
            assert(is_ascii_chars(a.push(s.last()))) by {
                assert forall|i: int| 0 <= i < a.push(s.last()).len() implies (a.push(
                    s.last(),
                )[i] as u32) < 0x80 by {
                    if i < a.len() {
                        assert(a.push(s.last())[i] == a[i]);
                    }
                }
            }
            assert(ascii_lower(a.push(s.last())) == ascii_lower(a).push(ascii_lower_char(s.last())));
        } else {
            assert(ascii_lower_char(s.last()) == '/');
        }
    }
}

/// `s` with every match of the non-empty `p` removed, matches taken from
/// left to right without overlap (`str::replace(p, "")`).
pub open spec fn remove_all(s: Seq<char>, p: Seq<char>) -> Seq<char>
    decreases s.len(),
{
    if p.len() == 0 || s.len() == 0 {
        s
    } else if has_prefix(s, p) {
        remove_all(s.skip(p.len() as int), p)
    } else {
        seq![s[0]] + remove_all(s.drop_first(), p)
    }
}

// ---------------------------------------------------------------------
// Lemmas
// ---------------------------------------------------------------------
pub proof fn lemma_first_index_of(s: Seq<char>, c: char)
    ensures
        0 <= first_index_of(s, c) <= s.len(),
        forall|i: int| 0 <= i < first_index_of(s, c) ==> s[i] != c,
        first_index_of(s, c) < s.len() ==> s[first_index_of(s, c)] == c,
    decreases s.len(),
{
    if s.len() > 0 && s[0] != c {
        lemma_first_index_of(s.drop_first(), c);
        assert forall|i: int| 0 <= i < first_index_of(s, c) implies s[i] != c by {
            if i > 0 {
                assert(s[i] == s.drop_first()[i - 1]);
            }
        }
    }
}

/// The first `c` at or after `m` in `s` is at `m` when none stands before it.
pub proof fn lemma_first_index_of_at(s: Seq<char>, c: char, m: int)
    requires
        0 <= m <= s.len(),
        forall|i: int| 0 <= i < m ==> s[i] != c,
        m < s.len() ==> s[m] == c,
    ensures
        first_index_of(s, c) == m,
    decreases s.len(),
{
    if s.len() > 0 && m > 0 {
        lemma_first_index_of_at(s.drop_first(), c, m - 1);
    }
}

proof fn lemma_trim_start_step(s: Seq<char>, a: int, b: int)
    requires
        0 <= a < b <= s.len(),
        char_is_whitespace(s[a]),
    ensures
        trim_start_spec(s.subrange(a, b)) == trim_start_spec(s.subrange(a + 1, b)),
{
    assert(s.subrange(a, b).drop_first() =~= s.subrange(a + 1, b));
}

proof fn lemma_trim_end_step(s: Seq<char>, a: int, b: int)
    requires
        0 <= a < b <= s.len(),
        char_is_whitespace(s[b - 1]),
    ensures
        trim_end_spec(s.subrange(a, b)) == trim_end_spec(s.subrange(a, b - 1)),
{
    assert(s.subrange(a, b).drop_last() =~= s.subrange(a, b - 1));
}

proof fn lemma_after_last_at(s: Seq<char>, c: char, j: int)
    requires
        0 <= j <= s.len(),
        forall|k: int| j <= k < s.len() ==> s[k] != c,
        j == 0 || s[j - 1] == c,
    ensures
        after_last(s, c) == s.skip(j),
    decreases s.len(),
{
    if s.len() == 0 {
        assert(s.skip(j) =~= s);
    } else if j == s.len() {
        assert(s.skip(j) =~= Seq::<char>::empty());
    } else {
        lemma_after_last_at(s.drop_last(), c, j);
        assert(s.drop_last().skip(j).push(s.last()) =~= s.skip(j));
    }
}

// ---------------------------------------------------------------------
// Executable operations on spans of a character vector
// ---------------------------------------------------------------------
/// The bounds of `cs[start..end]` without its leading and trailing whitespace.
pub fn trim_span(cs: &Vec<char>, start: usize, end: usize) -> (r: (usize, usize))
    requires
        start <= end <= cs@.len(),
    ensures
        start <= r.0 <= r.1 <= end,
        cs@.subrange(r.0 as int, r.1 as int) == trim_spec(cs@.subrange(start as int, end as int)),
{
    let mut a = start;
    while a < end && is_whitespace(cs[a])
        invariant
            start <= a <= end <= cs@.len(),
            trim_start_spec(cs@.subrange(start as int, end as int)) == trim_start_spec(
                cs@.subrange(a as int, end as int),
            ),
        decreases end - a,
    {
        proof {
            lemma_trim_start_step(cs@, a as int, end as int);
        }
        a = a + 1;
    }
    let ghost ts = cs@.subrange(a as int, end as int);
    assert(trim_start_spec(ts) == ts);
    let mut b = end;
    while b > a && is_whitespace(cs[b - 1])
        invariant
            start <= a <= b <= end <= cs@.len(),
            trim_end_spec(cs@.subrange(a as int, end as int)) == trim_end_spec(
                cs@.subrange(a as int, b as int),
            ),
        decreases b - a,
    {
        proof {
            lemma_trim_end_step(cs@, a as int, b as int);
        }
        b = b - 1;
    }
    (a, b)
}

/// The index of the first `c` in `cs[from..to]`, or `to` where there is none.
pub fn find_char(cs: &Vec<char>, from: usize, to: usize, c: char) -> (r: usize)
    requires
        from <= to <= cs@.len(),
    ensures
        from <= r <= to,
        r - from == first_index_of(cs@.subrange(from as int, to as int), c),
        forall|k: int| from <= k < r ==> cs@[k] != c,
        r < to ==> cs@[r as int] == c,
{
    let mut i = from;
    while i < to && cs[i] != c
        invariant
            from <= i <= to <= cs@.len(),
            forall|k: int| from <= k < i ==> cs@[k] != c,
        decreases to - i,
    {
        i = i + 1;
    }
    proof {
        lemma_first_index_of_at(cs@.subrange(from as int, to as int), c, i - from);
    }
    i
}

/// Whether `cs[start..end]` starts with `p`.
pub fn span_has_prefix(cs: &Vec<char>, start: usize, end: usize, p: &str) -> (r: bool)
    requires
        start <= end <= cs@.len(),
    ensures
        r == has_prefix(cs@.subrange(start as int, end as int), p@),
{
    let n = p.unicode_len();
    if n > end - start {
        return false;
    }
    let mut i: usize = 0;
    while i < n
        invariant
            n == p@.len(),
            start + n <= end <= cs@.len(),
            i <= n,
            forall|k: int| 0 <= k < i ==> cs@[start + k] == p@[k],
        decreases n - i,
    {
        if cs[start + i] != p.get_char(i) {
            assert(cs@.subrange(start as int, end as int).take(n as int)[i as int] != p@[i as int]);
            return false;
        }
        i = i + 1;
    }
    assert(cs@.subrange(start as int, end as int).take(n as int) =~= p@);
    true
}

/// Whether `cs[start..end]` is exactly `p`.
pub fn span_equals_str(cs: &Vec<char>, start: usize, end: usize, p: &str) -> (r: bool)
    requires
        start <= end <= cs@.len(),
    ensures
        r == (cs@.subrange(start as int, end as int) == p@),
{
    let n = p.unicode_len();
    if n != end - start {
        assert(cs@.subrange(start as int, end as int).len() != p@.len());
        return false;
    }
    let b = span_has_prefix(cs, start, end, p);
    assert(cs@.subrange(start as int, end as int).take(n as int) =~= cs@.subrange(
        start as int,
        end as int,
    ));
    b
}

/// Whether `cs[a..b]` and `cs[c..d]` hold the same characters.
pub fn spans_equal(cs: &Vec<char>, a: usize, b: usize, c: usize, d: usize) -> (r: bool)
    requires
        a <= b <= cs@.len(),
        c <= d <= cs@.len(),
    ensures
        r == (cs@.subrange(a as int, b as int) == cs@.subrange(c as int, d as int)),
{
    if b - a != d - c {
        assert(cs@.subrange(a as int, b as int).len() != cs@.subrange(c as int, d as int).len());
        return false;
    }
    let n = b - a;
    let mut i: usize = 0;
    while i < n
        invariant
            n == b - a == d - c,
            a <= b <= cs@.len(),
            c <= d <= cs@.len(),
            i <= n,
            forall|k: int|
                0 <= k < i ==> #[trigger] cs@.subrange(a as int, b as int)[k] == cs@.subrange(
                    c as int,
                    d as int,
                )[k],
        decreases n - i,
    {
        if cs[a + i] != cs[c + i] {
            assert(cs@.subrange(a as int, b as int)[i as int] != cs@.subrange(
                c as int,
                d as int,
            )[i as int]);
            return false;
        }
        i = i + 1;
    }
    assert(cs@.subrange(a as int, b as int) =~= cs@.subrange(c as int, d as int));
    true
}

/// Whether `p` occurs in `s`.
pub fn contains_str(s: &Vec<char>, p: &str) -> (r: bool)
    ensures
        r == contains_seq(s@, p@),
{
    let n = p.unicode_len();
    let len = s.len();
    if n > len {
        return false;
    }
    let mut i: usize = 0;
    while i <= len - n
        invariant
            n == p@.len(),
            len == s@.len(),
            n <= len,
            i <= len - n + 1,
            forall|k: int| 0 <= k < i ==> #[trigger] s@.subrange(k, k + n) != p@,
        decreases len - n + 1 - i,
    {
        if span_equals_str(s, i, i + n, p) {
            return true;
        }
        if i == len - n {
            return false;
        }
        i = i + 1;
    }
    false
}

/// Whether the character `c` occurs in `s`.
pub fn contains_char(s: &Vec<char>, c: char) -> (r: bool)
    ensures
        r == s@.contains(c),
{
    let i = find_char(s, 0, s.len(), c);
    proof {
        if i < s.len() {
            assert(s@[i as int] == c);
        } else {
            assert(s@.subrange(0, s@.len() as int) =~= s@);
        }
    }
    i < s.len()
}

/// The start of the part of `s` after its last `c` (0 where there is none).
pub fn after_last_start(s: &Vec<char>, c: char) -> (r: usize)
    ensures
        r <= s@.len(),
        s@.skip(r as int) == after_last(s@, c),
{
    let mut j = s.len();
    while j > 0 && s[j - 1] != c
        invariant
            j <= s@.len(),
            forall|k: int| j <= k < s@.len() ==> s@[k] != c,
        decreases j,
    {
        j = j - 1;
    }
    proof {
        lemma_after_last_at(s@, c, j as int);
    }
    j
}

/// `s` with every match of `p` removed, matches taken from left to right.
pub fn remove_all_str(s: &Vec<char>, p: &str) -> (r: Vec<char>)
    ensures
        r@ == remove_all(s@, p@),
{
    let n = p.unicode_len();
    let len = s.len();
    let mut out: Vec<char> = Vec::new();
    if n == 0 {
        let mut k: usize = 0;
        while k < len
            invariant
                len == s@.len(),
                k <= len,
                out@ == s@.take(k as int),
            decreases len - k,
        {
            out.push(s[k]);
            assert(s@.take(k + 1) =~= s@.take(k as int).push(s@[k as int]));
            k = k + 1;
        }
        assert(s@.take(len as int) =~= s@);
        return out;
    }
    let mut i: usize = 0;
    assert(s@.skip(0) =~= s@);
    assert(out@ + remove_all(s@, p@) =~= remove_all(s@, p@));
    while i < len
        invariant
            n == p@.len(),
            n > 0,
            len == s@.len(),
            i <= len,
            out@ + remove_all(s@.skip(i as int), p@) == remove_all(s@, p@),
        decreases len - i,
    {
        let ghost rest = s@.skip(i as int);
        if n <= len - i && span_has_prefix(s, i, len, p) {
            assert(s@.subrange(i as int, len as int) =~= rest);
            assert(rest.skip(n as int) =~= s@.skip(i + n));
            i = i + n;
        } else {
            proof {
                if n <= len - i {
                    assert(s@.subrange(i as int, len as int) =~= rest);
                }
            }
            assert(rest.drop_first() =~= s@.skip(i + 1));
            assert(out@.push(s@[i as int]) + remove_all(s@.skip(i + 1), p@) =~= out@ + (seq![
                rest[0],
            ] + remove_all(rest.drop_first(), p@)));
            out.push(s[i]);
            i = i + 1;
        }
    }
    assert(s@.skip(len as int) =~= Seq::<char>::empty());
    assert(out@ + Seq::<char>::empty() =~= out@);
    out
}

} // verus!
