//! Character-level text utilities used to build paths and URLs.

use vstd::prelude::*;
use vstd::string::StrSliceExecFns;

verus! {

broadcast use vstd::string::group_string_axioms;

/// Appends one character to a string (`String::push`).
#[verifier::external_body]
pub(crate) fn push_char(s: &mut String, c: char)
    ensures
        final(s)@ == old(s)@.push(c),
{
    s.push(c)
}

/// The characters of a string slice, in order.
pub fn str_chars(s: &str) -> (v: Vec<char>)
    ensures
        v@ == s@,
{
    let mut v: Vec<char> = Vec::new();
    for c in it: s.chars()
        invariant
            v@ == it.seq().take(it.index()),
    {
        v.push(c);
    }
    v
}

/// Appends every character of `add` to `s`.
pub fn push_chars(s: &mut String, add: &[char])
    ensures
        final(s)@ == old(s)@ + add@,
{
    let ghost start = s@;
    for i in 0..add.len()
        invariant
            s@ == start + add@.take(i as int),
    {
        push_char(s, add[i]);
        assert(add@.take(i + 1) == add@.take(i as int).push(add@[i as int]));
    }
    assert(add@.take(add@.len() as int) == add@);
}

/// Appends a string slice to `s`.
pub fn push_str(s: &mut String, add: &str)
    ensures
        final(s)@ == old(s)@ + add@,
{
    let v = str_chars(add);
    push_chars(s, v.as_slice());
}

/// A string made of the given characters.
pub fn string_from_chars(v: &[char]) -> (s: String)
    ensures
        s@ == v@,
{
    let mut s = String::new();
    push_chars(&mut s, v);
    s
}

/// A fresh copy of a string slice.
pub fn to_owned_string(t: &str) -> (s: String)
    ensures
        s@ == t@,
{
    let mut s = String::new();
    push_str(&mut s, t);
    s
}

/// The concatenation of two string slices.
pub fn concat2(a: &str, b: &str) -> (s: String)
    ensures
        s@ == a@ + b@,
{
    let mut s = String::new();
    push_str(&mut s, a);
    push_str(&mut s, b);
    s
}

/// The concatenation of three string slices.
pub fn concat3(a: &str, b: &str, c: &str) -> (s: String)
    ensures
        s@ == a@ + b@ + c@,
{
    let mut s = String::new();
    push_str(&mut s, a);
    push_str(&mut s, b);
    push_str(&mut s, c);
    s
}

/// `pat` occurs in `s` starting at index `i`.
pub open spec fn occurs_at(s: Seq<char>, pat: Seq<char>, i: int) -> bool {
    &&& 0 <= i
    &&& i + pat.len() <= s.len()
    &&& s.subrange(i, i + pat.len()) == pat
}

/// `pat` occurs somewhere in `s`.
pub open spec fn contains_seq(s: Seq<char>, pat: Seq<char>) -> bool {
    exists|i: int| occurs_at(s, pat, i)
}

/// The index of the first occurrence of `pat` in `s`, if any.
#[verifier::opaque]
pub open spec fn first_occurrence(s: Seq<char>, pat: Seq<char>) -> Option<int> {
    if contains_seq(s, pat) {
        Some(choose|i: int| occurs_at(s, pat, i) && forall|j: int| 0 <= j < i ==> !occurs_at(s, pat, j))
    } else {
        None
    }
}

/// An occurrence of `pat` in `s` implies a first one.
proof fn lemma_least_occurrence_exists(s: Seq<char>, pat: Seq<char>, w: int)
    requires
        occurs_at(s, pat, w),
    ensures
        exists|m: int| occurs_at(s, pat, m) && forall|j: int| 0 <= j < m ==> !occurs_at(s, pat, j),
    decreases w,
{
    if exists|j: int| 0 <= j < w && occurs_at(s, pat, j) {
        let j = choose|j: int| 0 <= j < w && occurs_at(s, pat, j);
        lemma_least_occurrence_exists(s, pat, j);
    }
}

/// The first occurrence, where there is one, is an occurrence and no earlier
/// index is one.
pub proof fn lemma_first_occurrence(s: Seq<char>, pat: Seq<char>)
    ensures
        match first_occurrence(s, pat) {
            Some(i) => occurs_at(s, pat, i) && forall|j: int| 0 <= j < i ==> !occurs_at(s, pat, j),
            None => forall|j: int| !occurs_at(s, pat, j),
        },
{
    reveal(first_occurrence);
    if contains_seq(s, pat) {
        let w = choose|w: int| occurs_at(s, pat, w);
        lemma_least_occurrence_exists(s, pat, w);
    }
}

/// Where no earlier occurrence exists, an occurrence at `i` is the first one.
pub proof fn lemma_first_occurrence_is(s: Seq<char>, pat: Seq<char>, i: int)
    requires
        occurs_at(s, pat, i),
        forall|j: int| 0 <= j < i ==> !occurs_at(s, pat, j),
    ensures
        first_occurrence(s, pat) == Some(i),
{
    reveal(first_occurrence);
    assert(contains_seq(s, pat));
    let k = choose|k: int| occurs_at(s, pat, k) && forall|j: int| 0 <= j < k ==> !occurs_at(s, pat, j);
    assert(occurs_at(s, pat, k) && forall|j: int| 0 <= j < k ==> !occurs_at(s, pat, j));
    if k < i {
        assert(!occurs_at(s, pat, k));
    }
    if i < k {
        assert(!occurs_at(s, pat, i));
    }
}

/// Does `pat` occur in `s` at index `i`?
fn matches_at(s: &[char], pat: &[char], i: usize) -> (b: bool)
    ensures
        b == occurs_at(s@, pat@, i as int),
{
    if i > s.len() || pat.len() > s.len() - i {
        return false;
    }
    let mut k: usize = 0;
    while k < pat.len()
        invariant
            i + pat.len() <= s.len(),
            k <= pat.len(),
            forall|j: int| 0 <= j < k ==> s@[i + j] == pat@[j],
        decreases pat.len() - k,
    {
        if s[i + k] != pat[k] {
            assert(s@.subrange(i as int, i + pat.len())[k as int] != pat@[k as int]);
            return false;
        }
        k = k + 1;
    }
    assert(s@.subrange(i as int, i + pat.len()) =~= pat@);
    true
}

/// The index of the first occurrence of `pat` in `s` (as `str::find` gives it,
/// counted in characters).
pub fn find_chars(s: &[char], pat: &[char]) -> (r: Option<usize>)
    ensures
        match r {
            Some(i) => first_occurrence(s@, pat@) == Some(i as int) && occurs_at(s@, pat@, i as int),
            None => first_occurrence(s@, pat@) is None && !contains_seq(s@, pat@),
        },
{
    let mut i: usize = 0;
    loop
        invariant
            i <= s.len(),
            forall|j: int| 0 <= j < i ==> !occurs_at(s@, pat@, j),
        decreases s.len() - i,
    {
        if matches_at(s, pat, i) {
            proof {
                lemma_first_occurrence_is(s@, pat@, i as int);
            }
            return Some(i);
        }
        if i == s.len() {
            assert(!contains_seq(s@, pat@));
            proof {
                reveal(first_occurrence);
            }
            return None;
        }
        i = i + 1;
    }
}

/// Does `pat` occur anywhere in `s`?
pub fn contains_str(s: &str, pat: &str) -> (b: bool)
    ensures
        b == contains_seq(s@, pat@),
{
    let sv = str_chars(s);
    let pv = str_chars(pat);
    let r = find_chars(sv.as_slice(), pv.as_slice());
    r.is_some()
}

/// `s` ends with `suffix`.
pub open spec fn ends_with_seq(s: Seq<char>, suffix: Seq<char>) -> bool {
    suffix.len() <= s.len() && s.skip(s.len() - suffix.len()) == suffix
}

/// Does `s` end with `suffix`?
pub fn ends_with_str(s: &str, suffix: &str) -> (b: bool)
    ensures
        b == ends_with_seq(s@, suffix@),
{
    let sv = str_chars(s);
    let pv = str_chars(suffix);
    if pv.len() > sv.len() {
        return false;
    }
    let start = sv.len() - pv.len();
    let b = matches_at(sv.as_slice(), pv.as_slice(), start);
    proof {
        assert(s@.skip(start as int) =~= s@.subrange(start as int, start + suffix@.len()));
    }
    b
}

/// The text that follows the first occurrence of `pattern` in `url`, up to
/// (not including) the next `/`, or to the end of `url` where no `/` follows.
pub open spec fn spec_extract_after(url: Seq<char>, pattern: Seq<char>) -> Option<Seq<char>> {
    match first_occurrence(url, pattern) {
        None => None,
        Some(i) => {
            let rest = url.skip(i + pattern.len());
            match first_occurrence(rest, seq!['/']) {
                Some(e) => Some(rest.take(e)),
                None => Some(rest),
            }
        },
    }
}

/// The segment of `url` that follows `pattern` (such as the number in
/// `.../files/123/download` after `/files/`).
pub fn extract_number_after<'a>(url: &'a str, pattern: &str) -> (r: Option<&'a str>)
    ensures
        match r {
            Some(t) => spec_extract_after(url@, pattern@) == Some(t@),
            None => spec_extract_after(url@, pattern@) is None,
        },
{
    let uv = str_chars(url);
    let pv = str_chars(pattern);
    match find_chars(uv.as_slice(), pv.as_slice()) {
        None => None,
        Some(i) => {
            assert(occurs_at(uv@, pv@, i as int));
            let plen = pv.len();
            let ulen = uv.len();
            assert(i + plen <= ulen);
            let start = i + plen;
            let rest = skip_chars(uv.as_slice(), start);
            let slash = ['/'];
            assert(slash@ =~= seq!['/']);
            match find_chars(rest.as_slice(), slash.as_slice()) {
                Some(e) => {
                    assert(occurs_at(rest@, slash@, e as int));
                    let seg = url.substring_char(start, start + e);
                    assert(seg@ =~= rest@.take(e as int));
                    Some(seg)
                },
                None => {
                    let seg = url.substring_char(start, ulen);
                    assert(seg@ =~= rest@);
                    Some(seg)
                },
            }
        },
    }
}

/// The characters of `v` from index `start` on.
pub fn skip_chars(v: &[char], start: usize) -> (r: Vec<char>)
    requires
        start <= v@.len(),
    ensures
        r@ == v@.skip(start as int),
{
    let mut r: Vec<char> = Vec::new();
    let mut k = start;
    while k < v.len()
        invariant
            start <= k <= v.len(),
            r@ == v@.subrange(start as int, k as int),
        decreases v.len() - k,
    {
        r.push(v[k]);
        k = k + 1;
        assert(r@ =~= v@.subrange(start as int, k as int));
    }
    assert(r@ =~= v@.skip(start as int));
    r
}

/// The first `n` characters of `v`.
pub fn take_chars(v: &[char], n: usize) -> (r: Vec<char>)
    requires
        n <= v@.len(),
    ensures
        r@ == v@.take(n as int),
{
    let mut r: Vec<char> = Vec::new();
    let mut j: usize = 0;
    while j < n
        invariant
            n <= v.len(),
            j <= n,
            r@ == v@.take(j as int),
        decreases n - j,
    {
        r.push(v[j]);
        j = j + 1;
        assert(r@ =~= v@.take(j as int));
    }
    r
}

/// `s` with every occurrence of the character `c` replaced by `rep`
/// (what `str::replace` gives for a one-character pattern).
pub open spec fn replace_char(s: Seq<char>, c: char, rep: Seq<char>) -> Seq<char>
    decreases s.len(),
{
    if s.len() == 0 {
        Seq::empty()
    } else {
        replace_char(s.drop_last(), c, rep) + (if s.last() == c { rep } else { seq![s.last()] })
    }
}

/// Replaces every occurrence of the character `c` in `s` by `rep`.
pub fn replace_char_str(s: &str, c: char, rep: &str) -> (r: String)
    ensures
        r@ == replace_char(s@, c, rep@),
{
    let v = str_chars(s);
    let rv = str_chars(rep);
    let mut r = String::new();
    for i in 0..v.len()
        invariant
            v@ == s@,
            rv@ == rep@,
            r@ == replace_char(s@.take(i as int), c, rep@),
    {
        assert(s@.take(i + 1).drop_last() =~= s@.take(i as int));
        if v[i] == c {
            push_chars(&mut r, rv.as_slice());
        } else {
            push_char(&mut r, v[i]);
            assert(seq![v@[i as int]] =~= Seq::<char>::empty().push(v@[i as int]));
        }
        assert(r@ =~= replace_char(s@.take(i + 1), c, rep@));
    }
    assert(s@.take(v.len() as int) =~= s@);
    r
}

/// The pieces of `s` between the non-overlapping occurrences of a non-empty
/// `pat`, left to right (what `str::split` gives).
pub open spec fn split_seq(s: Seq<char>, pat: Seq<char>) -> Seq<Seq<char>>
    decreases s.len(),
{
    if pat.len() == 0 {
        seq![s]
    } else {
        match first_occurrence(s, pat) {
            None => seq![s],
            Some(i) => {
                proof {
                    lemma_first_occurrence(s, pat);
                }
                seq![s.take(i)] + split_seq(s.skip(i + pat.len()), pat)
            },
        }
    }
}

/// Splitting a text that holds no occurrence of `pat` gives the text itself.
pub proof fn lemma_split_without_separator(s: Seq<char>, pat: Seq<char>)
    requires
        !contains_seq(s, pat),
    ensures
        split_seq(s, pat) == seq![s],
{
    lemma_first_occurrence(s, pat);
    if first_occurrence(s, pat) is Some {
        let i = first_occurrence(s, pat)->0;
        assert(occurs_at(s, pat, i));
    }
}

/// Splitting `a + ", " + b` at `", "`, where `a` holds no comma, gives `a`
/// followed by the pieces of `b`.
pub proof fn lemma_split_comma_space(a: Seq<char>, b: Seq<char>)
    requires
        forall|k: int| 0 <= k < a.len() ==> #[trigger] a[k] != ',',
    ensures
        split_seq(a + ", "@ + b, ", "@) == seq![a] + split_seq(b, ", "@),
{
    reveal_strlit(", ");
    let pat = ", "@;
    let s = a + pat + b;
    let n = a.len() as int;
    assert(s.subrange(n, n + 2) =~= pat);
    assert forall|j: int| 0 <= j < n implies !occurs_at(s, pat, j) by {
        assert(s[j] == a[j]);
        if occurs_at(s, pat, j) {
            assert(s.subrange(j, j + 2)[0] == s[j]);
        }
    }
    lemma_first_occurrence_is(s, pat, n);
    assert(s.take(n) =~= a);
    assert(s.skip(n + 2) =~= b);
}

/// `s` with `prefix` taken off its front, where it starts with `prefix`.
pub open spec fn strip_prefix_seq(s: Seq<char>, prefix: Seq<char>) -> Option<Seq<char>> {
    if prefix.len() <= s.len() && s.take(prefix.len() as int) == prefix {
        Some(s.skip(prefix.len() as int))
    } else {
        None
    }
}

/// `s` without its leading `prefix`, or `None` where it does not start with
/// it (as `str::strip_prefix` gives it).
pub fn strip_prefix_str(s: &str, prefix: &str) -> (r: Option<String>)
    ensures
        r.deep_view() == strip_prefix_seq(s@, prefix@),
{
    let sv = str_chars(s);
    let pv = str_chars(prefix);
    if pv.len() > sv.len() {
        return None;
    }
    let starts = matches_at(sv.as_slice(), pv.as_slice(), 0);
    assert(sv@.subrange(0, pv@.len() as int) =~= sv@.take(pv@.len() as int));
    if !starts {
        return None;
    }
    let rest = skip_chars(sv.as_slice(), pv.len());
    Some(string_from_chars(rest.as_slice()))
}

/// The views of a sequence of strings.
pub open spec fn string_views(v: Seq<String>) -> Seq<Seq<char>> {
    v.map_values(|t: String| t@)
}

/// Splits `s` at every non-overlapping occurrence of a non-empty `pat`.
pub fn split_str(s: &str, pat: &str) -> (parts: Vec<String>)
    requires
        pat@.len() > 0,
    ensures
        string_views(parts@) == split_seq(s@, pat@),
{
    let pv = str_chars(pat);
    let mut rest = str_chars(s);
    let mut parts: Vec<String> = Vec::new();
    loop
        invariant
            pv@ == pat@,
            pat@.len() > 0,
            string_views(parts@) + split_seq(rest@, pat@) == split_seq(s@, pat@),
        decreases rest@.len(),
    {
        match find_chars(rest.as_slice(), pv.as_slice()) {
            None => {
                let piece = string_from_chars(rest.as_slice());
                let ghost before = parts@;
                parts.push(piece);
                assert(string_views(parts@) =~= string_views(before).push(rest@));
                assert(split_seq(rest@, pat@) == seq![rest@]);
                assert(string_views(parts@) =~= string_views(before) + split_seq(rest@, pat@));
                return parts;
            },
            Some(i) => {
                let plen = pv.len();
                let rlen = rest.len();
                assert(i + plen <= rlen);
                let head = take_chars(rest.as_slice(), i);
                let tail = skip_chars(rest.as_slice(), i + plen);
                let piece = string_from_chars(head.as_slice());
                let ghost before = parts@;
                let ghost old_rest = rest@;
                parts.push(piece);
                rest = tail;
                assert(split_seq(old_rest, pat@) == seq![old_rest.take(i as int)] + split_seq(rest@, pat@));
                assert(string_views(parts@) =~= string_views(before).push(old_rest.take(i as int)));
                assert(string_views(parts@) + split_seq(rest@, pat@) =~= string_views(before) + split_seq(old_rest, pat@));
            },
        }
    }
}

/// The segment taken after a pattern never holds a `/`.
pub proof fn lemma_extracted_has_no_slash(url: Seq<char>, pattern: Seq<char>)
    ensures
        spec_extract_after(url, pattern) matches Some(seg) ==> !seg.contains('/'),
{
    match first_occurrence(url, pattern) {
        None => {},
        Some(i) => {
            let rest = url.skip(i + pattern.len());
            lemma_first_occurrence(rest, seq!['/']);
            match first_occurrence(rest, seq!['/']) {
                Some(e) => {
                    let seg = rest.take(e);
                    assert forall|j: int| 0 <= j < seg.len() implies seg[j] != '/' by {
                        if seg[j] == '/' {
                            assert(rest.subrange(j, j + 1) =~= seq!['/']);
                            assert(occurs_at(rest, seq!['/'], j));
                        }
                    }
                },
                None => {
                    assert forall|j: int| 0 <= j < rest.len() implies rest[j] != '/' by {
                        if rest[j] == '/' {
                            assert(rest.subrange(j, j + 1) =~= seq!['/']);
                            assert(occurs_at(rest, seq!['/'], j));
                        }
                    }
                },
            }
        },
    }
}

} // verus!
