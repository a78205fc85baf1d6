//! Verified string helpers: trimming, searching for a character,
//! base names, extensions, lower-casing and splitting.

use vstd::prelude::*;

verus! {

/// ASCII whitespace: what query trimming and token splitting remove.
pub open spec fn is_space_char(c: char) -> bool {
    c == ' ' || c == '\t' || c == '\n' || c == '\r'
}

pub open spec fn drop_leading_spaces(s: Seq<char>) -> Seq<char>
    decreases s.len(),
{
    if s.len() > 0 && is_space_char(s[0]) {
        drop_leading_spaces(s.skip(1))
    } else {
        s
    }
}

pub open spec fn drop_trailing_spaces(s: Seq<char>) -> Seq<char>
    decreases s.len(),
{
    if s.len() > 0 && is_space_char(s[s.len() - 1]) {
        drop_trailing_spaces(s.drop_last())
    } else {
        s
    }
}

/// The string with leading and trailing whitespace removed.
pub open spec fn trimmed(s: Seq<char>) -> Seq<char> {
    drop_trailing_spaces(drop_leading_spaces(s))
}

pub fn is_space(c: char) -> (r: bool)
    ensures
        r == is_space_char(c),
{
    c == ' ' || c == '\t' || c == '\n' || c == '\r'
}

proof fn lemma_drop_leading_at(s: Seq<char>, i: int)
    requires
        0 <= i <= s.len(),
        forall|k: int| 0 <= k < i ==> is_space_char(s[k]),
        i == s.len() || !is_space_char(s[i]),
    ensures
        drop_leading_spaces(s) == s.skip(i),
    decreases i,
{
    if i == 0 {
        assert(s.skip(0) =~= s);
    } else {
        assert(is_space_char(s[0]));
        lemma_drop_leading_at(s.skip(1), i - 1);
        assert(s.skip(1).skip(i - 1) =~= s.skip(i));
    }
}

proof fn lemma_drop_trailing_at(s: Seq<char>, e: int)
    requires
        0 <= e <= s.len(),
        forall|k: int| e <= k < s.len() ==> is_space_char(s[k]),
        e == 0 || !is_space_char(s[e - 1]),
    ensures
        drop_trailing_spaces(s) == s.take(e),
    decreases s.len() - e,
{
    if e == s.len() {
        if s.len() > 0 && is_space_char(s[s.len() - 1]) {
            assert(false);
        }
        assert(s.take(e) =~= s);
    } else {
        assert(is_space_char(s[s.len() - 1]));
        lemma_drop_trailing_at(s.drop_last(), e);
        assert(s.drop_last().take(e) =~= s.take(e));
    }
}

/// A query that is empty or whitespace-only trims to the empty
/// string, so both search operations promise an empty result for it.
pub proof fn lemma_blank_trims_empty(q: Seq<char>)
    requires
        forall|i: int| 0 <= i < q.len() ==> is_space_char(q[i]),
    ensures
        trimmed(q).len() == 0,
{
    lemma_drop_leading_at(q, q.len() as int);
    assert(q.skip(q.len() as int) =~= Seq::<char>::empty());
}

/// Remove leading and trailing ASCII whitespace.
pub fn trim(s: &str) -> (r: String)
    ensures
        r@ == trimmed(s@),
{
    let n: usize = s.unicode_len();
    let mut start: usize = 0;
    while start < n && is_space(s.get_char(start))
        invariant
            n == s@.len(),
            0 <= start <= n,
            forall|k: int| 0 <= k < start ==> is_space_char(s@[k]),
        decreases n - start,
    {
        start = start + 1;
    }
    proof {
        lemma_drop_leading_at(s@, start as int);
    }
    let mut end: usize = n;
    while end > start && is_space(s.get_char(end - 1))
        invariant
            n == s@.len(),
            start <= end <= n,
            forall|k: int| end <= k < n ==> is_space_char(s@[k]),
        decreases end,
    {
        end = end - 1;
    }
    proof {
        let tail = s@.skip(start as int);
        lemma_drop_trailing_at(tail, end - start);
        assert(tail.take(end - start) =~= s@.subrange(start as int, end as int));
    }
    s.substring_char(start, end).to_owned()
}

/// Character-wise string equality.
pub fn eq_str(a: &str, b: &str) -> (r: bool)
    ensures
        r == (a@ == b@),
{
    let na: usize = a.unicode_len();
    let nb: usize = b.unicode_len();
    if na != nb {
        return false;
    }
    let mut i: usize = 0;
    while i < na
        invariant
            na == a@.len(),
            na == b@.len(),
            0 <= i <= na,
            forall|k: int| 0 <= k < i ==> a@[k] == b@[k],
        decreases na - i,
    {
        if a.get_char(i) != b.get_char(i) {
            return false;
        }
        i = i + 1;
    }
    proof {
        assert(a@ =~= b@);
    }
    true
}

/// Whether `p` is a prefix of `s`.
pub fn str_starts_with(s: &str, p: &str) -> (r: bool)
    ensures
        r == p@.is_prefix_of(s@),
{
    let np: usize = p.unicode_len();
    let ns: usize = s.unicode_len();
    if np > ns {
        return false;
    }
    let mut i: usize = 0;
    while i < np
        invariant
            np == p@.len(),
            ns == s@.len(),
            np <= ns,
            0 <= i <= np,
            forall|k: int| 0 <= k < i ==> s@[k] == p@[k],
        decreases np - i,
    {
        if s.get_char(i) != p.get_char(i) {
            return false;
        }
        i = i + 1;
    }
    proof {
        assert(s@.subrange(0, np as int) =~= p@);
    }
    true
}

/// Index of the last occurrence of `c`, scanning from the end.
pub open spec fn last_occurrence(s: Seq<char>, c: char) -> Option<int>
    decreases s.len(),
{
    if s.len() == 0 {
        None
    } else if s[s.len() - 1] == c {
        Some(s.len() - 1)
    } else {
        last_occurrence(s.drop_last(), c)
    }
}

proof fn lemma_last_occurrence_found(s: Seq<char>, c: char, i: int)
    requires
        0 <= i < s.len(),
        s[i] == c,
        forall|j: int| i < j < s.len() ==> s[j] != c,
    ensures
        last_occurrence(s, c) == Some(i),
    decreases s.len(),
{
    if i == s.len() - 1 {
    } else {
        lemma_last_occurrence_found(s.drop_last(), c, i);
    }
}

proof fn lemma_last_occurrence_none(s: Seq<char>, c: char)
    requires
        forall|j: int| 0 <= j < s.len() ==> s[j] != c,
    ensures
        last_occurrence(s, c) is None,
    decreases s.len(),
{
    if s.len() > 0 {
        lemma_last_occurrence_none(s.drop_last(), c);
    }
}

/// Index of the last occurrence of `c` in `s`, if any.
pub fn find_last(s: &str, c: char) -> (r: Option<usize>)
    ensures
        match r {
            Some(i) => last_occurrence(s@, c) == Some(i as int) && i < s@.len(),
            None => last_occurrence(s@, c) is None,
        },
{
    let n: usize = s.unicode_len();
    let mut i: usize = n;
    while i > 0
        invariant
            n == s@.len(),
            0 <= i <= n,
            forall|j: int| i <= j < n ==> s@[j] != c,
        decreases i,
    {
        i = i - 1;
        if s.get_char(i) == c {
            proof {
                lemma_last_occurrence_found(s@, c, i as int);
            }
            return Some(i);
        }
    }
    proof {
        lemma_last_occurrence_none(s@, c);
    }
    None
}

/// The part of a path after its last `/`, or the whole path.
pub open spec fn basename_spec(path: Seq<char>) -> Seq<char> {
    match last_occurrence(path, '/') {
        Some(i) => path.skip(i + 1),
        None => path,
    }
}

pub fn basename(path: &str) -> (r: String)
    ensures
        r@ == basename_spec(path@),
{
    let n: usize = path.unicode_len();
    match find_last(path, '/') {
        Some(i) => {
            let r = path.substring_char(i + 1, n).to_owned();
            proof {
                assert(path@.subrange(i + 1, n as int) =~= path@.skip(i + 1));
            }
            r
        },
        None => path.to_owned(),
    }
}

/// The extension of a path: what follows the last `.` of its base name,
/// provided that dot is not the name's first character.
pub open spec fn ext_spec(path: Seq<char>) -> Option<Seq<char>> {
    let name = basename_spec(path);
    match last_occurrence(name, '.') {
        Some(i) => if i > 0 {
            Some(name.skip(i + 1))
        } else {
            None
        },
        None => None,
    }
}

pub fn extension(path: &str) -> (r: Option<String>)
    ensures
        match r {
            Some(e) => ext_spec(path@) == Some(e@),
            None => ext_spec(path@) is None,
        },
{
    let name = basename(path);
    let n: usize = name.as_str().unicode_len();
    match find_last(name.as_str(), '.') {
        Some(i) => {
            if i > 0 {
                let e = name.as_str().substring_char(i + 1, n).to_owned();
                proof {
                    assert(name@.subrange(i + 1, n as int) =~= name@.skip(i + 1));
                }
                Some(e)
            } else {
                None
            }
        },
        None => None,
    }
}

/// ASCII lower-casing of a single character.
pub open spec fn lower_char_spec(c: char) -> char {
    if 'A' <= c && c <= 'Z' {
        (((c as u8) + 32) as char)
    } else {
        c
    }
}

/// The string with every character ASCII-lower-cased.
pub open spec fn lower_spec(s: Seq<char>) -> Seq<char> {
    Seq::new(s.len(), |i: int| lower_char_spec(s[i]))
}

pub fn lower_char(c: char) -> (r: char)
    ensures
        r == lower_char_spec(c),
{
    if 'A' <= c && c <= 'Z' {
        ((c as u8) + 32) as char
    } else {
        c
    }
}

/// Relies on String::push: appends exactly the one character.
#[verifier::external_body]
pub(crate) fn push_char(s: &mut String, c: char)
    ensures
        final(s)@ == old(s)@.push(c),
{
    s.push(c);
}

pub fn to_lower(s: &str) -> (r: String)
    ensures
        r@ == lower_spec(s@),
{
    let n: usize = s.unicode_len();
    let mut out = String::new();
    let mut i: usize = 0;
    while i < n
        invariant
            n == s@.len(),
            0 <= i <= n,
            out@.len() == i,
            forall|k: int| 0 <= k < i ==> out@[k] == lower_char_spec(s@[k]),
        decreases n - i,
    {
        push_char(&mut out, lower_char(s.get_char(i)));
        i = i + 1;
    }
    proof {
        assert(out@ =~= lower_spec(s@));
    }
    out
}

/// Index of the first occurrence of `c`, or the length of `s` when absent.
pub open spec fn scan_to(s: Seq<char>, c: char) -> int
    decreases s.len(),
{
    if s.len() == 0 {
        0
    } else if s[0] == c {
        0
    } else {
        1 + scan_to(s.skip(1), c)
    }
}

proof fn lemma_scan_to_at(s: Seq<char>, c: char, i: int)
    requires
        0 <= i <= s.len(),
        forall|k: int| 0 <= k < i ==> s[k] != c,
        i == s.len() || s[i] == c,
    ensures
        scan_to(s, c) == i,
    decreases i,
{
    if i > 0 {
        lemma_scan_to_at(s.skip(1), c, i - 1);
    }
}

/// Pieces of `s` split on `c`; a trailing or repeated separator yields
/// empty pieces, and the split of an empty string is one empty piece.
pub open spec fn split_on(s: Seq<char>, c: char) -> Seq<Seq<char>>
    decreases s.len(),
{
    let i = scan_to(s, c);
    // `scan_to` never leaves the bounds of `s`; the guard makes that
    // visible to the termination check.
    if 0 <= i < s.len() {
        seq![s.take(i)] + split_on(s.skip(i + 1), c)
    } else {
        seq![s]
    }
}

/// The views of a vector of strings.
pub open spec fn views_of_strings(v: Seq<String>) -> Seq<Seq<char>> {
    Seq::new(v.len(), |i: int| v[i]@)
}

/// Scan for `c` in `s` starting at `from`.
fn scan_from(s: &str, n: usize, from: usize, c: char) -> (r: usize)
    requires
        n == s@.len(),
        from <= n,
    ensures
        from <= r <= n,
        scan_to(s@.skip(from as int), c) == r - from,
        r < n ==> s@[r as int] == c,
        forall|k: int| from <= k < r ==> s@[k] != c,
{
    let mut j: usize = from;
    while j < n && s.get_char(j) != c
        invariant
            n == s@.len(),
            from <= j <= n,
            forall|k: int| from <= k < j ==> s@[k] != c,
        decreases n - j,
    {
        j = j + 1;
    }
    proof {
        let tail = s@.skip(from as int);
        lemma_scan_to_at(tail, c, j - from);
    }
    j
}

pub fn split_on_char(s: &str, c: char) -> (r: Vec<String>)
    ensures
        views_of_strings(r@) == split_on(s@, c),
{
    let n: usize = s.unicode_len();
    let mut out: Vec<String> = Vec::new();
    let mut pos: usize = 0;
    proof {
        assert(s@.skip(0) =~= s@);
        assert(views_of_strings(out@) + split_on(s@, c) =~= split_on(s@, c));
    }
    loop
        invariant_except_break
            split_on(s@, c) == views_of_strings(out@) + split_on(s@.skip(pos as int), c),
        invariant
            n == s@.len(),
            0 <= pos <= n,
        ensures
            views_of_strings(out@) == split_on(s@, c),
        decreases n - pos,
    {
        let ghost out_old = out@;
        let ghost rest = s@.skip(pos as int);
        let j = scan_from(s, n, pos, c);
        let piece = s.substring_char(pos, j).to_owned();
        proof {
            assert(rest.take(j - pos) =~= s@.subrange(pos as int, j as int));
        }
        out.push(piece);
        proof {
            assert(views_of_strings(out@) =~= views_of_strings(out_old) + seq![piece@]);
        }
        if j == n {
            proof {
                assert(scan_to(rest, c) == rest.len());
                assert(rest.take(j - pos) =~= rest);
                assert(split_on(rest, c) =~= seq![rest]);
                assert(views_of_strings(out@) =~= views_of_strings(out_old) + seq![rest]);
            }
            break;
        }
        proof {
            assert(rest.skip(j - pos + 1) =~= s@.skip(j + 1));
            assert(split_on(rest, c) =~= seq![piece@] + split_on(s@.skip(j + 1), c));
            assert(split_on(s@, c) =~= views_of_strings(out@) + split_on(s@.skip(j + 1), c));
        }
        pos = j + 1;
    }
    out
}

/// What precedes the first ASCII whitespace character, or all of `s`.
pub open spec fn first_token_spec(s: Seq<char>) -> Seq<char>
    decreases s.len(),
{
    if s.len() == 0 {
        Seq::empty()
    } else if is_space_char(s[0]) {
        Seq::empty()
    } else {
        seq![s[0]] + first_token_spec(s.skip(1))
    }
}

proof fn lemma_first_token_at(s: Seq<char>, i: int)
    requires
        0 <= i <= s.len(),
        forall|k: int| 0 <= k < i ==> !is_space_char(s[k]),
        i == s.len() || is_space_char(s[i]),
    ensures
        first_token_spec(s) == s.take(i),
    decreases i,
{
    if i == 0 {
        assert(s.take(0) =~= Seq::<char>::empty());
    } else {
        lemma_first_token_at(s.skip(1), i - 1);
        assert(seq![s[0]] + s.skip(1).take(i - 1) =~= s.take(i));
    }
}

pub fn first_token(s: &str) -> (r: String)
    ensures
        r@ == first_token_spec(s@),
{
    let n: usize = s.unicode_len();
    let mut i: usize = 0;
    while i < n && !is_space(s.get_char(i))
        invariant
            n == s@.len(),
            0 <= i <= n,
            forall|k: int| 0 <= k < i ==> !is_space_char(s@[k]),
        decreases n - i,
    {
        i = i + 1;
    }
    proof {
        lemma_first_token_at(s@, i as int);
        assert(s@.take(i as int) =~= s@.subrange(0, i as int));
    }
    s.substring_char(0, i).to_owned()
}

} // verus!
