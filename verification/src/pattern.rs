//! Occurrences of a pattern inside a sequence, and a search for the first one.

use vstd::prelude::*;

verus! {

/// `pat` stands in `text` at index `at`.
pub open spec fn occurs_at<T>(text: Seq<T>, pat: Seq<T>, at: int) -> bool {
    &&& 0 <= at
    &&& at + pat.len() <= text.len()
    &&& text.subrange(at, at + pat.len()) == pat
}

/// `pat` stands somewhere in `text`.
pub open spec fn occurs<T>(text: Seq<T>, pat: Seq<T>) -> bool {
    exists|at: int| occurs_at(text, pat, at)
}

/// `pat` stands in `text` at index `at` and at no smaller index.
pub open spec fn first_occurs_at<T>(text: Seq<T>, pat: Seq<T>, at: int) -> bool {
    &&& occurs_at(text, pat, at)
    &&& forall|k: int| 0 <= k < at ==> !occurs_at(text, pat, k)
}

/// The index of the first occurrence of `pat` in `text`, if there is one.
pub open spec fn first_occurrence<T>(text: Seq<T>, pat: Seq<T>) -> Option<int> {
    if occurs(text, pat) {
        Some(choose|at: int| first_occurs_at(text, pat, at))
    } else {
        None
    }
}

/// Each occurrence has a first occurrence at or before it.
pub proof fn lemma_first_occurrence_exists<T>(text: Seq<T>, pat: Seq<T>, at: int)
    requires
        occurs_at(text, pat, at),
    ensures
        exists|p: int| 0 <= p <= at && first_occurs_at(text, pat, p),
    decreases at,
{
    if exists|k: int| 0 <= k < at && occurs_at(text, pat, k) {
        let k = choose|k: int| 0 <= k < at && occurs_at(text, pat, k);
        lemma_first_occurrence_exists(text, pat, k);
        let p = choose|p: int| 0 <= p <= k && first_occurs_at(text, pat, p);
        assert(0 <= p <= at && first_occurs_at(text, pat, p));
    } else {
        assert(first_occurs_at(text, pat, at));
    }
}

/// `first_occurrence` is `Some(at)` exactly when the first occurrence is at `at`,
/// and `None` exactly when there is no occurrence.
pub proof fn lemma_first_occurrence<T>(text: Seq<T>, pat: Seq<T>)
    ensures
        forall|at: int|
            first_occurs_at(text, pat, at) <==> first_occurrence(text, pat) == Some(at),
        first_occurrence(text, pat) is None <==> !occurs(text, pat),
{
    if occurs(text, pat) {
        let any = choose|at: int| occurs_at(text, pat, at);
        lemma_first_occurrence_exists(text, pat, any);
        let p = choose|at: int| first_occurs_at(text, pat, at);
        assert(first_occurs_at(text, pat, p));
        assert forall|at: int| first_occurs_at(text, pat, at) implies at == p by {
            if at < p {
                assert(!occurs_at(text, pat, at));
            } else if p < at {
                assert(!occurs_at(text, pat, p));
            }
        }
    } else {
        assert forall|at: int| !first_occurs_at(text, pat, at) by {
            if first_occurs_at(text, pat, at) {
                assert(occurs_at(text, pat, at));
            }
        }
    }
}

/// Whether `needle` stands in `hay` at index `at`.
pub fn matches_at(hay: &[u8], needle: &[u8], at: usize) -> (found: bool)
    ensures
        found == occurs_at(hay@, needle@, at as int),
{
    let width: usize = needle.len();
    let total: usize = hay.len();
    if width > total || at > total - width {
        return false;
    }
    let mut i: usize = 0;
    while i < width
        invariant
            i <= width,
            width == needle@.len(),
            total == hay@.len(),
            at + width <= total,
            forall|j: int| 0 <= j < i ==> hay@[at + j] == needle@[j],
        decreases width - i,
    {
        if hay[at + i] != needle[i] {
            proof {
                let window = hay@.subrange(at as int, at + width);
                assert(window[i as int] == hay@[at + i]);
            }
            return false;
        }
        i += 1;
    }
    assert(hay@.subrange(at as int, at + width) =~= needle@);
    true
}

/// The index of the first occurrence of `needle` in `hay`.
pub fn find_first(hay: &[u8], needle: &[u8]) -> (found: Option<usize>)
    ensures
        found.is_some() == occurs(hay@, needle@),
        found matches Some(at) ==> first_occurs_at(hay@, needle@, at as int),
{
    if needle.len() > hay.len() {
        return None;
    }
    let last: usize = hay.len() - needle.len();
    let mut at: usize = 0;
    loop
        invariant
            at <= last,
            last == hay@.len() - needle@.len(),
            forall|k: int| 0 <= k < at ==> !occurs_at(hay@, needle@, k),
        decreases last - at,
    {
        if matches_at(hay, needle, at) {
            return Some(at);
        }
        if at == last {
            return None;
        }
        at += 1;
    }
}

} // verus!
