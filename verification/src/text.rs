//! Character-level helpers on strings: equality, search, slicing and
//! case conversion, each specified over the string's `Seq<char>` view.

use vstd::prelude::*;

verus! {

/// True when `c` is an ASCII lowercase letter.
pub open spec fn is_lower(c: char) -> bool {
    'a' <= c && c <= 'z'
}

/// The ASCII uppercase counterpart of `c`; characters outside `a..z` are
/// returned unchanged.
pub open spec fn spec_upper(c: char) -> char {
    if is_lower(c) {
        ((c as u8) - 0x20) as char
    } else {
        c
    }
}

/// Uppercases one ASCII lowercase letter; any other character is returned
/// unchanged.
pub fn to_upper(c: char) -> (r: char)
    ensures
        r == spec_upper(c),
{
    if 'a' <= c && c <= 'z' {
        ((c as u8) - 0x20) as char
    } else {
        c
    }
}

/// Relies on std's `String::push`: appends one character at the end.
#[verifier::external_body]
pub fn push_char(s: &mut String, c: char)
    ensures
        final(s)@ == old(s)@.push(c),
{
    s.push(c)
}

/// Character-for-character equality of two string slices.
pub fn str_eq(a: &str, b: &str) -> (r: bool)
    ensures
        r == (a@ == b@),
{
    let a_len = a.unicode_len();
    let b_len = b.unicode_len();
    if a_len != b_len {
        assert(a@ != b@) by {
            assert(a@.len() != b@.len());
        }
        return false;
    }
    let mut i: usize = 0;
    while i < a_len
        invariant
            a_len == a@.len(),
            b_len == b@.len(),
            a_len == b_len,
            0 <= i <= a_len,
            forall|j: int| 0 <= j < i ==> a@[j] == b@[j],
        decreases a_len - i,
    {
        if a.get_char(i) != b.get_char(i) {
            return false;
        }
        i = i + 1;
    }
    assert(a@ =~= b@);
    true
}

/// True when `pat` occurs in `s` starting at index `i`.
pub open spec fn occurs_at(s: Seq<char>, pat: Seq<char>, i: int) -> bool {
    &&& 0 <= i
    &&& i + pat.len() <= s.len()
    &&& s.subrange(i, i + pat.len()) == pat
}

/// True when `pat` occurs somewhere in `s`.
pub open spec fn occurs(s: Seq<char>, pat: Seq<char>) -> bool {
    exists|i: int| occurs_at(s, pat, i)
}

/// Tests whether `pat` occurs in `s` at index `i`.
pub fn starts_with_at(s: &str, pat: &str, i: usize) -> (r: bool)
    requires
        i + pat@.len() <= s@.len(),
    ensures
        r == occurs_at(s@, pat@, i as int),
{
    let n = pat.unicode_len();
    let s_len = s.unicode_len();
    let mut j: usize = 0;
    while j < n
        invariant
            n == pat@.len(),
            s_len == s@.len(),
            i + n <= s_len,
            0 <= j <= n,
            forall|k: int| 0 <= k < j ==> s@[i + k] == pat@[k],
        decreases n - j,
    {
        if s.get_char(i + j) != pat.get_char(j) {
            assert(s@.subrange(i as int, i + pat@.len())[j as int] != pat@[j as int]);
            return false;
        }
        j = j + 1;
    }
    assert(s@.subrange(i as int, i + pat@.len()) =~= pat@);
    true
}

/// The least index at which `pat` occurs in `s`, if any.
pub open spec fn first_occurrence(s: Seq<char>, pat: Seq<char>) -> Option<int> {
    first_occurrence_from(s, pat, 0)
}

/// Every occurrence index is unique as a least one, so `first_occurrence`
/// is pinned down: it returns the smallest index at which `pat` occurs.
pub proof fn lemma_first_occurrence_is_least(s: Seq<char>, pat: Seq<char>, i: int)
    requires
        occurs_at(s, pat, i),
        forall|j: int| 0 <= j < i ==> !occurs_at(s, pat, j),
    ensures
        first_occurrence(s, pat) == Some(i),
{
    lemma_first_occurrence_from_is_least(s, pat, 0, i);
}

/// When `pat` occurs nowhere in `s`, nothing is found.
pub proof fn lemma_first_occurrence_none(s: Seq<char>, pat: Seq<char>)
    requires
        !occurs(s, pat),
    ensures
        first_occurrence(s, pat) is None,
{
    assert(forall|m: int| m >= 0 ==> !occurs_at(s, pat, m));
    lemma_first_occurrence_from_none(s, pat, 0);
}

/// The concatenation of `f` applied to each element of `s`, in order.
pub open spec fn concat_map<A>(s: Seq<A>, f: spec_fn(A) -> Seq<char>) -> Seq<char>
    decreases s.len(),
{
    if s.len() == 0 {
        Seq::empty()
    } else {
        f(s[0]) + concat_map(s.drop_first(), f)
    }
}

/// Extending the mapped prefix by one element appends that element's text.
pub proof fn lemma_concat_map_take_step<A>(s: Seq<A>, f: spec_fn(A) -> Seq<char>, i: int)
    requires
        0 <= i < s.len(),
    ensures
        concat_map(s.take(i + 1), f) == concat_map(s.take(i), f) + f(s[i]),
    decreases i,
{
    if i == 0 {
        assert(s.take(1) =~= seq![s[0]]);
        assert(s.take(1).drop_first() =~= Seq::<A>::empty());
        assert(s.take(0) =~= Seq::<A>::empty());
        assert(concat_map(s.take(1), f) =~= concat_map(s.take(0), f) + f(s[0]));
    } else {
        lemma_concat_map_take_step(s.drop_first(), f, i - 1);
        assert(s.take(i + 1).drop_first() =~= s.drop_first().take(i));
        assert(s.take(i).drop_first() =~= s.drop_first().take(i - 1));
        assert(s.drop_first()[i - 1] == s[i]);
        assert(concat_map(s.take(i + 1), f) == f(s[0]) + concat_map(s.drop_first().take(i), f));
        assert(f(s[0]) + (concat_map(s.drop_first().take(i - 1), f) + f(s[i])) =~= (f(s[0])
            + concat_map(s.drop_first().take(i - 1), f)) + f(s[i]));
    }
}

/// Finds the first occurrence of `pat` in `s`.
pub fn find_sub(s: &str, pat: &str) -> (r: Option<usize>)
    ensures
        match r {
            Some(i) => first_occurrence(s@, pat@) == Some(i as int) && occurs_at(
                s@,
                pat@,
                i as int,
            ) && forall|j: int| 0 <= j < i ==> !occurs_at(s@, pat@, j),
            None => first_occurrence(s@, pat@) is None && !occurs(s@, pat@),
        },
{
    let s_len = s.unicode_len();
    let p_len = pat.unicode_len();
    if p_len > s_len {
        proof {
            assert(forall|i: int| !occurs_at(s@, pat@, i));
            lemma_first_occurrence_none(s@, pat@);
        }
        return None;
    }
    let last: usize = s_len - p_len;
    let mut i: usize = 0;
    loop
        invariant
            s_len == s@.len(),
            p_len == pat@.len(),
            p_len <= s_len,
            last == s_len - p_len,
            0 <= i <= last,
            forall|j: int| 0 <= j < i ==> !occurs_at(s@, pat@, j),
        decreases last - i,
    {
        if starts_with_at(s, pat, i) {
            proof {
                lemma_first_occurrence_is_least(s@, pat@, i as int);
            }
            return Some(i);
        }
        if i == last {
            proof {
                assert(forall|j: int| !occurs_at(s@, pat@, j));
                lemma_first_occurrence_none(s@, pat@);
            }
            return None;
        }
        i = i + 1;
    }
}

/// The least index at or after `j` at which `pat` occurs in `s`, if any.
pub open spec fn first_occurrence_from(s: Seq<char>, pat: Seq<char>, j: int) -> Option<int>
    decreases s.len() - j,
{
    if j < 0 || j > s.len() {
        None
    } else if occurs_at(s, pat, j) {
        Some(j)
    } else if j >= s.len() {
        None
    } else {
        first_occurrence_from(s, pat, j + 1)
    }
}

/// An occurrence at or after `j` with none between `j` and it is what
/// `first_occurrence_from` returns.
pub proof fn lemma_first_occurrence_from_is_least(s: Seq<char>, pat: Seq<char>, j: int, i: int)
    requires
        i >= j >= 0,
        occurs_at(s, pat, i),
        forall|m: int| j <= m < i ==> !occurs_at(s, pat, m),
    ensures
        first_occurrence_from(s, pat, j) == Some(i),
    decreases i - j,
{
    if j == i {
    } else {
        assert(!occurs_at(s, pat, j));
        lemma_first_occurrence_from_is_least(s, pat, j + 1, i);
    }
}

/// When `pat` occurs nowhere at or after `j`, nothing is found.
pub proof fn lemma_first_occurrence_from_none(s: Seq<char>, pat: Seq<char>, j: int)
    requires
        forall|m: int| m >= j ==> !occurs_at(s, pat, m),
    ensures
        first_occurrence_from(s, pat, j) is None,
    decreases s.len() - j + 1,
{
    if 0 <= j <= s.len() {
        assert(!occurs_at(s, pat, j));
        if j < s.len() {
            lemma_first_occurrence_from_none(s, pat, j + 1);
        }
    }
}

/// Finds the first occurrence of `pat` in `s` at or after `from`.
pub fn find_sub_from(s: &str, pat: &str, from: usize) -> (r: Option<usize>)
    requires
        from <= s@.len(),
    ensures
        match r {
            Some(i) => first_occurrence_from(s@, pat@, from as int) == Some(i as int) && i >= from
                && occurs_at(s@, pat@, i as int) && forall|m: int|
                from <= m < i ==> !occurs_at(s@, pat@, m),
            None => first_occurrence_from(s@, pat@, from as int) is None && forall|m: int|
                m >= from ==> !occurs_at(s@, pat@, m),
        },
{
    let s_len = s.unicode_len();
    let p_len = pat.unicode_len();
    if p_len > s_len || from > s_len - p_len {
        proof {
            assert(forall|m: int| m >= from ==> !occurs_at(s@, pat@, m));
            lemma_first_occurrence_from_none(s@, pat@, from as int);
        }
        return None;
    }
    let last: usize = s_len - p_len;
    let mut i: usize = from;
    loop
        invariant
            s_len == s@.len(),
            p_len == pat@.len(),
            p_len <= s_len,
            last == s_len - p_len,
            from <= i <= last,
            forall|m: int| from <= m < i ==> !occurs_at(s@, pat@, m),
        decreases last - i,
    {
        if starts_with_at(s, pat, i) {
            proof {
                lemma_first_occurrence_from_is_least(s@, pat@, from as int, i as int);
            }
            return Some(i);
        }
        if i == last {
            proof {
                assert(forall|m: int| m >= from ==> !occurs_at(s@, pat@, m));
                lemma_first_occurrence_from_none(s@, pat@, from as int);
            }
            return None;
        }
        i = i + 1;
    }
}

/// True when `c` is an ASCII whitespace character.
pub open spec fn is_space(c: char) -> bool {
    c == ' ' || c == '\t' || c == '\n' || c == '\r'
}

/// The least index at or after `j` holding character `c`, if any.
pub open spec fn first_char_at_or_after(x: Seq<char>, j: int, c: char) -> Option<int>
    decreases x.len() - j,
{
    if j < 0 || j >= x.len() {
        None
    } else if x[j] == c {
        Some(j)
    } else {
        first_char_at_or_after(x, j + 1, c)
    }
}

/// A position holding `c` with none before it (at or after `j`) is what
/// `first_char_at_or_after` returns.
pub proof fn lemma_first_char_is_least(x: Seq<char>, j: int, c: char, k: int)
    requires
        0 <= j <= k < x.len(),
        x[k] == c,
        forall|m: int| j <= m < k ==> x[m] != c,
    ensures
        first_char_at_or_after(x, j, c) == Some(k),
    decreases k - j,
{
    if j < k {
        lemma_first_char_is_least(x, j + 1, c, k);
    }
}

/// When no position at or after `j` holds `c`, nothing is found.
pub proof fn lemma_first_char_none(x: Seq<char>, j: int, c: char)
    requires
        forall|m: int| j <= m < x.len() ==> x[m] != c,
    ensures
        first_char_at_or_after(x, j, c) is None,
    decreases x.len() - j + 1,
{
    if 0 <= j < x.len() {
        lemma_first_char_none(x, j + 1, c);
    }
}

/// The first non-whitespace position at or after `j`, or the length when
/// only whitespace remains.
pub open spec fn spec_skip_ws(x: Seq<char>, j: int) -> int
    decreases x.len() - j,
{
    if j < 0 || j >= x.len() {
        x.len() as int
    } else if !is_space(x[j]) {
        j
    } else {
        spec_skip_ws(x, j + 1)
    }
}

/// A non-whitespace position with only whitespace before it (at or after
/// `j`) is what `spec_skip_ws` returns.
pub proof fn lemma_skip_ws_is_least(x: Seq<char>, j: int, k: int)
    requires
        0 <= j <= k < x.len(),
        !is_space(x[k]),
        forall|m: int| j <= m < k ==> is_space(x[m]),
    ensures
        spec_skip_ws(x, j) == k,
    decreases k - j,
{
    if j < k {
        lemma_skip_ws_is_least(x, j + 1, k);
    }
}

/// When only whitespace remains at or after `j`, the skip reaches the end.
pub proof fn lemma_skip_ws_all_ws(x: Seq<char>, j: int)
    requires
        forall|m: int| j <= m < x.len() ==> is_space(#[trigger] x[m]),
    ensures
        spec_skip_ws(x, j) == x.len(),
    decreases x.len() - j + 1,
{
    if 0 <= j < x.len() {
        lemma_skip_ws_all_ws(x, j + 1);
    }
}

/// Skipping whitespace twice is skipping it once.
pub proof fn lemma_skip_ws_idempotent(x: Seq<char>, j: int)
    requires
        0 <= j <= x.len(),
    ensures
        spec_skip_ws(x, spec_skip_ws(x, j)) == spec_skip_ws(x, j),
{
    lemma_skip_ws_bounds(x, j);
    let r = spec_skip_ws(x, j);
    if r < x.len() {
        lemma_skip_ws_is_least(x, r, r);
    }
}

/// Skipping whitespace lands between `j` and the end, passes over
/// whitespace only, and stops on none.
pub proof fn lemma_skip_ws_bounds(x: Seq<char>, j: int)
    requires
        0 <= j <= x.len(),
    ensures
        j <= spec_skip_ws(x, j) <= x.len(),
        forall|m: int| j <= m < spec_skip_ws(x, j) ==> is_space(#[trigger] x[m]),
        spec_skip_ws(x, j) < x.len() ==> !is_space(x[spec_skip_ws(x, j)]),
    decreases x.len() - j,
{
    if j < x.len() && is_space(x[j]) {
        lemma_skip_ws_bounds(x, j + 1);
    }
}

/// The greatest index holding character `c`, if any.
pub open spec fn last_char_of(x: Seq<char>, c: char) -> Option<int>
    decreases x.len(),
{
    if x.len() == 0 {
        None
    } else if x.last() == c {
        Some(x.len() - 1)
    } else {
        last_char_of(x.drop_last(), c)
    }
}

/// A position holding `c` with none after it is what `last_char_of`
/// returns.
pub proof fn lemma_last_char_is_greatest(x: Seq<char>, c: char, k: int)
    requires
        0 <= k < x.len(),
        x[k] == c,
        forall|m: int| k < m < x.len() ==> x[m] != c,
    ensures
        last_char_of(x, c) == Some(k),
    decreases x.len(),
{
    if k == x.len() - 1 {
    } else {
        assert(x.last() != c);
        assert(x.drop_last()[k] == c);
        assert(forall|m: int| k < m < x.drop_last().len() ==> #[trigger] x.drop_last()[m] != c);
        lemma_last_char_is_greatest(x.drop_last(), c, k);
    }
}

/// When `c` occurs nowhere in `x`, nothing is found.
pub proof fn lemma_last_char_none(x: Seq<char>, c: char)
    requires
        forall|m: int| 0 <= m < x.len() ==> x[m] != c,
    ensures
        last_char_of(x, c) is None,
    decreases x.len(),
{
    if x.len() > 0 {
        assert(forall|m: int| 0 <= m < x.drop_last().len() ==> #[trigger] x.drop_last()[m] != c);
        lemma_last_char_none(x.drop_last(), c);
    }
}

/// Finds the first position at or after `from` holding `c`.
pub fn find_char(s: &str, from: usize, c: char) -> (r: Option<usize>)
    requires
        from <= s@.len(),
    ensures
        match r {
            Some(g) => first_char_at_or_after(s@, from as int, c) == Some(g as int) && from <= g
                < s@.len() && s@[g as int] == c && forall|m: int| from <= m < g ==> s@[m] != c,
            None => first_char_at_or_after(s@, from as int, c) is None && forall|m: int|
                from <= m < s@.len() ==> s@[m] != c,
        },
{
    let n = s.unicode_len();
    let mut k: usize = from;
    while k < n
        invariant
            n == s@.len(),
            from <= k <= n,
            forall|m: int| from <= m < k ==> s@[m] != c,
        decreases n - k,
    {
        if s.get_char(k) == c {
            proof {
                lemma_first_char_is_least(s@, from as int, c, k as int);
            }
            return Some(k);
        }
        k = k + 1;
    }
    proof {
        lemma_first_char_none(s@, from as int, c);
    }
    None
}

/// The least whitespace position at or after `j`, if any.
pub open spec fn first_space_at_or_after(x: Seq<char>, j: int) -> Option<int>
    decreases x.len() - j,
{
    if j < 0 || j >= x.len() {
        None
    } else if is_space(x[j]) {
        Some(j)
    } else {
        first_space_at_or_after(x, j + 1)
    }
}

/// A whitespace position with none before it (at or after `j`) is what
/// `first_space_at_or_after` returns.
pub proof fn lemma_first_space_is_least(x: Seq<char>, j: int, k: int)
    requires
        0 <= j <= k < x.len(),
        is_space(x[k]),
        forall|m: int| j <= m < k ==> !is_space(x[m]),
    ensures
        first_space_at_or_after(x, j) == Some(k),
    decreases k - j,
{
    if j < k {
        lemma_first_space_is_least(x, j + 1, k);
    }
}

/// When no whitespace stands at or after `j`, nothing is found.
pub proof fn lemma_first_space_none(x: Seq<char>, j: int)
    requires
        forall|m: int| j <= m < x.len() ==> !is_space(x[m]),
    ensures
        first_space_at_or_after(x, j) is None,
    decreases x.len() - j + 1,
{
    if 0 <= j < x.len() {
        lemma_first_space_none(x, j + 1);
    }
}

/// Finds the first whitespace position at or after `from`.
pub fn find_space(s: &str, from: usize) -> (r: Option<usize>)
    requires
        from <= s@.len(),
    ensures
        match r {
            Some(g) => first_space_at_or_after(s@, from as int) == Some(g as int) && from <= g
                < s@.len() && is_space(s@[g as int]) && forall|m: int|
                from <= m < g ==> !is_space(s@[m]),
            None => first_space_at_or_after(s@, from as int) is None && forall|m: int|
                from <= m < s@.len() ==> !is_space(s@[m]),
        },
{
    let n = s.unicode_len();
    let mut k: usize = from;
    while k < n
        invariant
            n == s@.len(),
            from <= k <= n,
            forall|m: int| from <= m < k ==> !is_space(s@[m]),
        decreases n - k,
    {
        if is_space_char(s.get_char(k)) {
            proof {
                lemma_first_space_is_least(s@, from as int, k as int);
            }
            return Some(k);
        }
        k = k + 1;
    }
    proof {
        lemma_first_space_none(s@, from as int);
    }
    None
}

/// Tests whether `c` is ASCII whitespace.
pub fn is_space_char(c: char) -> (r: bool)
    ensures
        r == is_space(c),
{
    c == ' ' || c == '\t' || c == '\n' || c == '\r'
}

/// Skips whitespace from `from`, returning the first non-whitespace
/// position, or the length when none remains.
pub fn skip_ws(s: &str, from: usize) -> (r: usize)
    requires
        from <= s@.len(),
    ensures
        r == spec_skip_ws(s@, from as int),
        from <= r <= s@.len(),
        forall|m: int| from <= m < r ==> is_space(s@[m]),
        r < s@.len() ==> !is_space(s@[r as int]),
{
    let n = s.unicode_len();
    let mut k: usize = from;
    while k < n
        invariant
            n == s@.len(),
            from <= k <= n,
            forall|m: int| from <= m < k ==> is_space(s@[m]),
        decreases n - k,
    {
        if !is_space_char(s.get_char(k)) {
            proof {
                lemma_skip_ws_is_least(s@, from as int, k as int);
            }
            return k;
        }
        k = k + 1;
    }
    proof {
        lemma_skip_ws_all_ws(s@, from as int);
    }
    n
}

/// Finds the last position holding `c`.
pub fn rfind_char(s: &str, c: char) -> (r: Option<usize>)
    ensures
        match r {
            Some(g) => last_char_of(s@, c) == Some(g as int) && 0 <= g < s@.len() && s@[g as int]
                == c && forall|m: int| g < m < s@.len() ==> s@[m] != c,
            None => last_char_of(s@, c) is None && forall|m: int| 0 <= m < s@.len() ==> s@[m] != c,
        },
{
    let n = s.unicode_len();
    let mut k: usize = n;
    while k > 0
        invariant
            n == s@.len(),
            0 <= k <= n,
            forall|m: int| k <= m < n ==> s@[m] != c,
        decreases k,
    {
        k = k - 1;
        if s.get_char(k) == c {
            proof {
                lemma_last_char_is_greatest(s@, c, k as int);
            }
            return Some(k);
        }
    }
    proof {
        lemma_last_char_none(s@, c);
    }
    None
}

} // verus!
