//! First occurrences of a pattern in a sequence.
use vstd::prelude::*;

verus! {

/// `p` stands in `s` at index `i`.
pub open spec fn occurs<T>(s: Seq<T>, p: Seq<T>, i: int) -> bool {
    &&& 0 <= i
    &&& i + p.len() <= s.len()
    &&& s.subrange(i, i + p.len()) == p
}

/// The first index from `i` on at which `p` stands in `s`.
pub open spec fn find_from<T>(s: Seq<T>, p: Seq<T>, i: int) -> Option<int>
    decreases s.len() + 1 - i,
{
    if i + p.len() > s.len() {
        None
    } else if occurs(s, p, i) {
        Some(i)
    } else {
        find_from(s, p, i + 1)
    }
}

/// The first index at which `p` stands in `s`.
pub open spec fn find<T>(s: Seq<T>, p: Seq<T>) -> Option<int> {
    find_from(s, p, 0)
}

pub proof fn lemma_find_from<T>(s: Seq<T>, p: Seq<T>, i: int)
    ensures
        match find_from(s, p, i) {
            Some(k) => i <= k && occurs(s, p, k) && (forall|j: int|
                i <= j < k ==> !#[trigger] occurs(s, p, j)),
            None => forall|j: int| i <= j ==> !#[trigger] occurs(s, p, j),
        },
    decreases s.len() + 1 - i,
{
    if i + p.len() <= s.len() && !occurs(s, p, i) {
        lemma_find_from(s, p, i + 1);
    }
}

/// `find` gives the least index of an occurrence, and `None` where there is none.
pub proof fn lemma_find<T>(s: Seq<T>, p: Seq<T>)
    ensures
        match find(s, p) {
            Some(k) => occurs(s, p, k) && k + p.len() <= s.len() && (forall|j: int|
                0 <= j < k ==> !#[trigger] occurs(s, p, j)),
            None => forall|j: int| !#[trigger] occurs(s, p, j),
        },
{
    lemma_find_from(s, p, 0);
}

pub proof fn lemma_find_is<T>(s: Seq<T>, p: Seq<T>, k: int)
    requires
        occurs(s, p, k),
        forall|j: int| 0 <= j < k ==> !#[trigger] occurs(s, p, j),
    ensures
        find(s, p) == Some(k),
{
    lemma_find(s, p);
}

pub proof fn lemma_find_none<T>(s: Seq<T>, p: Seq<T>)
    requires
        forall|j: int| 0 <= j && j + p.len() <= s.len() ==> !#[trigger] occurs(s, p, j),
    ensures
        find(s, p) == None::<int>,
{
    lemma_find(s, p);
}

/// A one-element pattern stands where its element stands.
pub proof fn lemma_occurs_one<T>(s: Seq<T>, c: T, i: int)
    ensures
        occurs(s, seq![c], i) <==> 0 <= i < s.len() && s[i] == c,
{
    if 0 <= i < s.len() {
        assert(s.subrange(i, i + 1) =~= seq![s[i]]);
        assert(seq![s[i]][0] == s[i]);
        assert(seq![c][0] == c);
    }
}

/// An occurrence stays where it is when more is appended.
pub proof fn lemma_occurs_append<T>(s: Seq<T>, more: Seq<T>, p: Seq<T>, i: int)
    requires
        i + p.len() <= s.len(),
    ensures
        occurs(s + more, p, i) == occurs(s, p, i),
{
    if 0 <= i {
        assert((s + more).subrange(i, i + p.len()) =~= s.subrange(i, i + p.len()));
    }
}

/// The first occurrence in a prefix is the first one in the whole.
pub proof fn lemma_find_append<T>(s: Seq<T>, more: Seq<T>, p: Seq<T>)
    requires
        find(s, p) is Some,
    ensures
        find(s + more, p) == find(s, p),
{
    lemma_find(s, p);
    let k = find(s, p)->0;
    lemma_occurs_append(s, more, p, k);
    assert forall|j: int| 0 <= j < k implies !#[trigger] occurs(s + more, p, j) by {
        lemma_occurs_append(s, more, p, j);
    }
    lemma_find_is(s + more, p, k);
}

fn bytes_at(s: &[u8], p: &[u8], i: usize) -> (res: bool)
    requires
        i + p@.len() <= s@.len(),
    ensures
        res == occurs(s@, p@, i as int),
{
    let n: usize = s.len();
    let mut j: usize = 0;
    while j < p.len()
        invariant
            j <= p@.len(),
            n == s@.len(),
            i + p@.len() <= s@.len(),
            forall|k: int| 0 <= k < j ==> #[trigger] p@[k] == s@[i + k],
        decreases p@.len() - j,
    {
        if s[i + j] != p[j] {
            assert(s@.subrange(i as int, i + p@.len())[j as int] != p@[j as int]);
            return false;
        }
        j = j + 1;
    }
    assert(s@.subrange(i as int, i + p@.len()) =~= p@);
    true
}

/// The first index at which the bytes `p` stand in `s`.
pub fn find_bytes(s: &[u8], p: &[u8]) -> (res: Option<usize>)
    ensures
        res is Some <==> find(s@, p@) is Some,
        res matches Some(i) ==> find(s@, p@) == Some(i as int) && i + p@.len() <= s@.len(),
{
    proof {
        lemma_find(s@, p@);
    }
    if s.len() < p.len() {
        return None;
    }
    let end: usize = s.len() - p.len();
    let mut i: usize = 0;
    while i <= end
        invariant
            end == s@.len() - p@.len(),
            i <= end + 1,
            forall|j: int| 0 <= j < i ==> !#[trigger] occurs(s@, p@, j),
        decreases end + 1 - i,
    {
        if bytes_at(s, p, i) {
            proof {
                lemma_find_is(s@, p@, i as int);
            }
            return Some(i);
        }
        if i == end {
            proof {
                lemma_find_none(s@, p@);
            }
            return None;
        }
        i = i + 1;
    }
    None
}

/// `s` begins with the bytes `p`.
pub fn bytes_start_with(s: &[u8], p: &[u8]) -> (res: bool)
    ensures
        res == occurs(s@, p@, 0),
{
    s.len() >= p.len() && bytes_at(s, p, 0)
}

fn chars_at(s: &[char], p: &[char], i: usize) -> (res: bool)
    requires
        i + p@.len() <= s@.len(),
    ensures
        res == occurs(s@, p@, i as int),
{
    let n: usize = s.len();
    let mut j: usize = 0;
    while j < p.len()
        invariant
            j <= p@.len(),
            n == s@.len(),
            i + p@.len() <= s@.len(),
            forall|k: int| 0 <= k < j ==> #[trigger] p@[k] == s@[i + k],
        decreases p@.len() - j,
    {
        if s[i + j] != p[j] {
            assert(s@.subrange(i as int, i + p@.len())[j as int] != p@[j as int]);
            return false;
        }
        j = j + 1;
    }
    assert(s@.subrange(i as int, i + p@.len()) =~= p@);
    true
}

/// The first index at which the characters `p` stand in `s`.
pub fn find_chars(s: &[char], p: &[char]) -> (res: Option<usize>)
    ensures
        res is Some <==> find(s@, p@) is Some,
        res matches Some(i) ==> find(s@, p@) == Some(i as int) && i + p@.len() <= s@.len(),
{
    proof {
        lemma_find(s@, p@);
    }
    if s.len() < p.len() {
        return None;
    }
    let end: usize = s.len() - p.len();
    let mut i: usize = 0;
    while i <= end
        invariant
            end == s@.len() - p@.len(),
            i <= end + 1,
            forall|j: int| 0 <= j < i ==> !#[trigger] occurs(s@, p@, j),
        decreases end + 1 - i,
    {
        if chars_at(s, p, i) {
            proof {
                lemma_find_is(s@, p@, i as int);
            }
            return Some(i);
        }
        if i == end {
            proof {
                lemma_find_none(s@, p@);
            }
            return None;
        }
        i = i + 1;
    }
    None
}

/// `s` begins with the characters `p`.
pub fn chars_start_with(s: &[char], p: &[char]) -> (res: bool)
    ensures
        res == p@.is_prefix_of(s@),
        res == occurs(s@, p@, 0),
{
    proof {
        if p@.len() <= s@.len() {
            assert(s@.subrange(0, p@.len() as int) =~= s@.subrange(0int, 0int + p@.len()));
        }
    }
    s.len() >= p.len() && chars_at(s, p, 0)
}

/// `s` ends with the characters `p`.
pub fn chars_end_with(s: &[char], p: &[char]) -> (res: bool)
    ensures
        res == p@.is_suffix_of(s@),
{
    if s.len() < p.len() {
        return false;
    }
    let i: usize = s.len() - p.len();
    proof {
        assert(s@.subrange(i as int, s@.len() as int) =~= s@.subrange(i as int, i + p@.len()));
    }
    chars_at(s, p, i)
}

} // verus!
