use vstd::prelude::*;

verus! {

/// `pat` occurs in `s` starting at index `i`.
pub open spec fn occurs_at(s: Seq<char>, pat: Seq<char>, i: int) -> bool {
    0 <= i && i + pat.len() <= s.len() && s.subrange(i, i + pat.len()) == pat
}

/// The first index at or after `from` where `pat` occurs in `s`.
pub open spec fn find_from(s: Seq<char>, pat: Seq<char>, from: int) -> Option<int>
    decreases s.len() + 1 - from,
{
    if from < 0 || from + pat.len() > s.len() {
        None
    } else if occurs_at(s, pat, from) {
        Some(from)
    } else {
        find_from(s, pat, from + 1)
    }
}

/// `s` with the `len` characters at `i` replaced by `rep`.
pub open spec fn replace_at(s: Seq<char>, i: int, len: int, rep: Seq<char>) -> Seq<char> {
    s.take(i) + rep + s.skip(i + len)
}

/// A search from `from` finds an occurrence no later than any at `j`.
pub proof fn lemma_find_from_reaches(s: Seq<char>, pat: Seq<char>, from: int, j: int)
    requires
        0 <= from <= j,
        occurs_at(s, pat, j),
    ensures
        find_from(s, pat, from) is Some,
        find_from(s, pat, from).unwrap() <= j,
    decreases j - from,
{
    if !occurs_at(s, pat, from) {
        lemma_find_from_reaches(s, pat, from + 1, j);
    }
}

/// A search from `from` finds the first occurrence at or after `from`.
pub proof fn lemma_find_from_first(s: Seq<char>, pat: Seq<char>, from: int)
    requires
        0 <= from,
    ensures
        find_from(s, pat, from) matches Some(i) ==> from <= i && occurs_at(s, pat, i) && forall|
            j: int,
        | from <= j < i ==> !occurs_at(s, pat, j),
    decreases s.len() + 1 - from,
{
    if from + pat.len() <= s.len() && !occurs_at(s, pat, from) {
        lemma_find_from_first(s, pat, from + 1);
    }
}

/// The suffix of `s` from `i`, with the occurrences of `pat` found scanning
/// left to right, without overlap, replaced by `rep`.
pub open spec fn replace_all_from(s: Seq<char>, pat: Seq<char>, rep: Seq<char>, i: int) -> Seq<
    char,
>
    decreases s.len() - i,
{
    if i < 0 || i >= s.len() {
        Seq::empty()
    } else if pat.len() > 0 && occurs_at(s, pat, i) {
        rep + replace_all_from(s, pat, rep, i + pat.len())
    } else {
        seq![s[i]] + replace_all_from(s, pat, rep, i + 1)
    }
}

/// `s` with every occurrence of `pat` replaced by `rep`.
pub open spec fn replace_all(s: Seq<char>, pat: Seq<char>, rep: Seq<char>) -> Seq<char> {
    replace_all_from(s, pat, rep, 0)
}

/// The characters of `s`.
pub fn chars_of(s: &str) -> (r: Vec<char>)
    ensures
        r@ == s@,
{
    let n = s.unicode_len();
    let mut r: Vec<char> = Vec::new();
    let mut i: usize = 0;
    while i < n
        invariant
            n == s@.len(),
            i <= n,
            r@ == s@.take(i as int),
        decreases n - i,
    {
        r.push(s.get_char(i));
        i = i + 1;
        assert(r@ =~= s@.take(i as int));
    }
    assert(r@ =~= s@);
    r
}

/// The characters of `v` from index `from` on.
pub fn suffix_of(v: &Vec<char>, from: usize) -> (r: Vec<char>)
    requires
        from <= v@.len(),
    ensures
        r@ == v@.skip(from as int),
{
    let mut r: Vec<char> = Vec::new();
    let mut i: usize = from;
    while i < v.len()
        invariant
            from <= i <= v@.len(),
            r@ == v@.subrange(from as int, i as int),
        decreases v@.len() - i,
    {
        r.push(v[i]);
        i = i + 1;
        assert(r@ =~= v@.subrange(from as int, i as int));
    }
    assert(r@ =~= v@.skip(from as int));
    r
}

/// Whether `lit` occurs in `v` at index `at`.
pub fn occurs_at_exec(v: &Vec<char>, lit: &str, at: usize) -> (r: bool)
    ensures
        r == occurs_at(v@, lit@, at as int),
{
    let n = lit.unicode_len();
    if at > v.len() || n > v.len() - at {
        return false;
    }
    let len = v.len();
    let mut j: usize = 0;
    while j < n
        invariant
            len == v@.len(),
            n == lit@.len(),
            at + n <= v@.len(),
            j <= n,
            v@.subrange(at as int, at + j) == lit@.take(j as int),
        decreases n - j,
    {
        assert(at + j < v@.len());
        if v[at + j] != lit.get_char(j) {
            assert(v@.subrange(at as int, at + n)[j as int] != lit@[j as int]);
            return false;
        }
        j = j + 1;
        assert(v@.subrange(at as int, at + j) =~= lit@.take(j as int));
    }
    assert(lit@.take(n as int) =~= lit@);
    true
}

/// The first index at or after `from` where `pat` occurs in `v`.
pub fn find_from_exec(v: &Vec<char>, pat: &str, from: usize) -> (r: Option<usize>)
    requires
        from <= v@.len(),
    ensures
        match r {
            Some(i) => {
                &&& find_from(v@, pat@, from as int) == Some(i as int)
                &&& from <= i && i + pat@.len() <= v@.len()
                &&& occurs_at(v@, pat@, i as int)
            },
            None => find_from(v@, pat@, from as int) is None,
        },
{
    let n = pat.unicode_len();
    let mut i: usize = from;
    while i <= v.len()
        invariant
            n == pat@.len(),
            from <= i,
            i <= v@.len() + 1,
            find_from(v@, pat@, from as int) == find_from(v@, pat@, i as int),
        decreases v@.len() + 1 - i,
    {
        if n > v.len() - i {
            return None;
        }
        if occurs_at_exec(v, pat, i) {
            return Some(i);
        }
        if n == 0 {
            assert(v@.subrange(i as int, i as int) =~= pat@);
        }
        assert(i < v@.len());
        i = i + 1;
    }
    None
}

/// `s` with every occurrence of `pat` replaced by `rep`, scanning left to
/// right without overlap.
pub fn replace_all_str(s: &str, pat: &str, rep: &str) -> (r: String)
    ensures
        r@ == replace_all(s@, pat@, rep@),
{
    let v = chars_of(s);
    let n = pat.unicode_len();
    let len = v.len();
    let mut out = String::new();
    let mut last: usize = 0;
    let mut i: usize = 0;
    assert(s@.subrange(0, 0) =~= Seq::<char>::empty());
    assert(out@ + s@.subrange(0, 0) + replace_all_from(s@, pat@, rep@, 0) =~= replace_all(s@, pat@, rep@));
    while i < len
        invariant
            len == s@.len(),
            v@ == s@,
            n == pat@.len(),
            last <= i <= len,
            out@ + s@.subrange(last as int, i as int) + replace_all_from(s@, pat@, rep@, i as int)
                == replace_all(s@, pat@, rep@),
        decreases len - i,
    {
        let ghost before = out@;
        let ghost rest = replace_all_from(s@, pat@, rep@, i as int);
        if n > 0 && occurs_at_exec(&v, pat, i) {
            let piece = s.substring_char(last, i);
            out.append(piece);
            out.append(rep);
            let ghost next = replace_all_from(s@, pat@, rep@, (i + n) as int);
            assert(rest == rep@ + next);
            i = i + n;
            last = i;
            assert(s@.subrange(last as int, i as int) =~= Seq::<char>::empty());
            assert(out@ + s@.subrange(last as int, i as int) + next =~= before + piece@ + (rep@
                + next));
        } else {
            let ghost next = replace_all_from(s@, pat@, rep@, i + 1);
            assert(rest == seq![s@[i as int]] + next);
            assert(s@.subrange(last as int, i + 1) =~= s@.subrange(last as int, i as int).push(
                s@[i as int],
            ));
            assert(before + s@.subrange(last as int, i + 1) + next =~= before + s@.subrange(
                last as int,
                i as int,
            ) + rest);
            i = i + 1;
        }
    }
    let tail = s.substring_char(last, len);
    out.append(tail);
    assert(replace_all_from(s@, pat@, rep@, len as int) =~= Seq::<char>::empty());
    assert(out@ =~= replace_all(s@, pat@, rep@));
    out
}

} // verus!
