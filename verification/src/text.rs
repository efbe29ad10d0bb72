use vstd::prelude::*;

verus! {

/// True when `c` is one of the whitespace characters this library strips
/// from configuration text: space, tab, carriage return, line feed.
pub open spec fn is_space(c: char) -> bool {
    c == ' ' || c == '\t' || c == '\r' || c == '\n'
}

/// A string counts as "provided" when it holds at least one non-whitespace
/// character; blank or empty values are treated as absent.
pub open spec fn provided(s: Seq<char>) -> bool {
    exists|i: int| 0 <= i < s.len() && !is_space(s[i])
}

/// Index of the first occurrence of `c` in `s` at or after `i`,
/// or `s.len()` when there is none.
pub open spec fn find_char_from(s: Seq<char>, i: int, c: char) -> int
    decreases s.len() - i,
{
    if !(0 <= i < s.len()) {
        s.len() as int
    } else if s[i] == c {
        i
    } else {
        find_char_from(s, i + 1, c)
    }
}

/// Index of the first non-whitespace character of `s` at or after `i`,
/// or `s.len()` when the rest is all whitespace.
pub open spec fn first_nonspace_from(s: Seq<char>, i: int) -> int
    decreases s.len() - i,
{
    if !(0 <= i < s.len()) {
        s.len() as int
    } else if !is_space(s[i]) {
        i
    } else {
        first_nonspace_from(s, i + 1)
    }
}

/// One past the last non-whitespace character of `s` strictly below `i`,
/// or `0` when there is none.
pub open spec fn last_nonspace_until(s: Seq<char>, i: int) -> int
    decreases i,
{
    if i <= 0 || i > s.len() {
        0
    } else if !is_space(s[i - 1]) {
        i
    } else {
        last_nonspace_until(s, i - 1)
    }
}

/// `s` with leading and trailing whitespace removed.
pub open spec fn trim_spec(s: Seq<char>) -> Seq<char> {
    let a = first_nonspace_from(s, 0);
    let b = last_nonspace_until(s, s.len() as int);
    if a < b {
        s.subrange(a, b)
    } else {
        Seq::empty()
    }
}

/// `v` with one layer of matching surrounding quotes (`"` or `'`) removed.
pub open spec fn unquote_spec(v: Seq<char>) -> Seq<char> {
    if v.len() >= 2 && ((v[0] == '"' && v[v.len() - 1] == '"') || (v[0] == '\'' && v[v.len()
        - 1] == '\'')) {
        v.subrange(1, v.len() - 1)
    } else {
        v
    }
}

pub proof fn lemma_last_nonspace_le(s: Seq<char>, i: int)
    requires
        0 <= i <= s.len(),
    ensures
        0 <= last_nonspace_until(s, i) <= i,
    decreases i,
{
    if i <= 0 {
    } else if !is_space(s[i - 1]) {
    } else {
        lemma_last_nonspace_le(s, i - 1);
    }
}

/// Whether `c` is whitespace, decided in executable code.
pub fn is_space_char(c: char) -> (r: bool)
    ensures
        r == is_space(c),
{
    c == ' ' || c == '\t' || c == '\r' || c == '\n'
}

/// Whether `s` holds any non-whitespace character.
pub fn is_provided(s: &str) -> (r: bool)
    ensures
        r == provided(s@),
{
    let len = s.unicode_len();
    let mut i: usize = 0;
    while i < len
        invariant
            i <= len,
            len == s@.len(),
            forall|j: int| 0 <= j < i ==> is_space(s@[j]),
        decreases len - i,
    {
        if !is_space_char(s.get_char(i)) {
            return true;
        }
        i += 1;
    }
    false
}

/// Character-for-character string equality.
pub fn str_eq(a: &str, b: &str) -> (r: bool)
    ensures
        r == (a@ == b@),
{
    let alen = a.unicode_len();
    let blen = b.unicode_len();
    if alen != blen {
        return false;
    }
    let mut i: usize = 0;
    while i < alen
        invariant
            i <= alen,
            alen == a@.len(),
            blen == b@.len(),
            alen == blen,
            forall|j: int| 0 <= j < i ==> a@[j] == b@[j],
        decreases alen - i,
    {
        if a.get_char(i) != b.get_char(i) {
            return false;
        }
        i += 1;
    }
    proof {
        assert(a@ =~= b@);
    }
    true
}

/// Index of the first occurrence of `c` in `s` at or after `start`,
/// or the length of `s` when there is none.
pub fn find_char_at(s: &str, start: usize, c: char) -> (j: usize)
    requires
        start <= s@.len(),
    ensures
        start <= j <= s@.len(),
        j as int == find_char_from(s@, start as int, c),
        forall|m: int| start <= m < j ==> s@[m] != c,
        j < s@.len() ==> s@[j as int] == c,
{
    let len = s.unicode_len();
    let mut j = start;
    while j < len
        invariant
            start <= j <= len,
            len == s@.len(),
            find_char_from(s@, start as int, c) == find_char_from(s@, j as int, c),
            forall|m: int| start <= m < j ==> s@[m] != c,
        decreases len - j,
    {
        if s.get_char(j) == c {
            return j;
        }
        j += 1;
    }
    j
}

/// `s` with surrounding whitespace removed.
pub fn trim(s: &str) -> (r: String)
    ensures
        r@ == trim_spec(s@),
{
    let len = s.unicode_len();
    let mut a: usize = 0;
    while a < len && is_space_char(s.get_char(a))
        invariant
            a <= len,
            len == s@.len(),
            first_nonspace_from(s@, 0) == first_nonspace_from(s@, a as int),
            forall|j: int| 0 <= j < a ==> is_space(s@[j]),
        decreases len - a,
    {
        a += 1;
    }
    let mut b: usize = len;
    while b > a && is_space_char(s.get_char(b - 1))
        invariant
            a <= b <= len,
            len == s@.len(),
            a < len ==> !is_space(s@[a as int]),
            a == len || a < b,
            last_nonspace_until(s@, len as int) == last_nonspace_until(s@, b as int),
        decreases b,
    {
        b -= 1;
    }
    if a < b {
        let t = s.substring_char(a, b);
        t.to_owned()
    } else {
        proof {
            lemma_last_nonspace_le(s@, s@.len() as int);
            assert(trim_spec(s@) =~= Seq::<char>::empty());
        }
        String::new()
    }
}

/// `s` with one layer of matching surrounding quotes removed.
pub fn unquote(s: &str) -> (r: String)
    ensures
        r@ == unquote_spec(s@),
{
    let len = s.unicode_len();
    if len >= 2 {
        let c0 = s.get_char(0);
        let cl = s.get_char(len - 1);
        if (c0 == '"' && cl == '"') || (c0 == '\'' && cl == '\'') {
            let t = s.substring_char(1, len - 1);
            return t.to_owned();
        }
    }
    s.to_owned()
}

} // verus!
