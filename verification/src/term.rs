//! Terms and lists of terms.
//!
//! Both stores keep terms in lists that hold each term once: the key/value
//! side the terms of an object, the full-text side the words of a bucket.
use vstd::prelude::*;

verus! {

/// The terms of a list as plain values.
pub open spec fn terms_view(terms: Seq<String>) -> Seq<Seq<char>> {
    Seq::new(terms.len(), |i: int| terms[i]@)
}

/// `added` merged into `base`: every term of `added` that is not yet there is
/// appended, in the order of `added`.
pub open spec fn merge_terms(base: Seq<Seq<char>>, added: Seq<Seq<char>>) -> Seq<Seq<char>>
    decreases added.len(),
{
    if added.len() == 0 {
        base
    } else {
        let merged = merge_terms(base, added.drop_last());
        if merged.contains(added.last()) {
            merged
        } else {
            merged.push(added.last())
        }
    }
}

/// Merging keeps a list free of duplicates, keeps what was there, and adds at
/// most as many terms as were offered.
pub proof fn lemma_merge_terms(base: Seq<Seq<char>>, added: Seq<Seq<char>>)
    requires
        base.no_duplicates(),
    ensures
        merge_terms(base, added).no_duplicates(),
        base.len() <= merge_terms(base, added).len() <= base.len() + added.len(),
        forall|term: Seq<char>|
            merge_terms(base, added).contains(term) <==> base.contains(term) || added.contains(
                term,
            ),
    decreases added.len(),
{
    if added.len() > 0 {
        let front = added.drop_last();
        let merged = merge_terms(base, front);
        lemma_merge_terms(base, front);
        let whole = merge_terms(base, added);
        assert forall|term: Seq<char>|
            whole.contains(term) <==> base.contains(term) || added.contains(term) by {
            if added.contains(term) {
                let at = added.index_of(term);
                assert(0 <= at < added.len() && added[at] == term);
                if at < front.len() {
                    assert(front[at] == term);
                }
            }
            if front.contains(term) {
                let at = front.index_of(term);
                assert(added[at] == term);
            }
            if !merged.contains(added.last()) {
                assert(whole[merged.len() as int] == added.last());
                if whole.contains(term) {
                    let at = whole.index_of(term);
                    assert(0 <= at < whole.len() && whole[at] == term);
                    if at < merged.len() {
                        assert(merged[at] == term);
                    }
                }
                if merged.contains(term) {
                    let at = merged.index_of(term);
                    assert(whole[at] == term);
                }
            }
            assert(added[added.len() - 1] == added.last());
        }
    }
}

/// Whether `terms` holds `term`.
pub fn contains_term(terms: &Vec<String>, term: &String) -> (found: bool)
    ensures
        found == terms_view(terms@).contains(term@),
{
    let mut at: usize = 0;
    while at < terms.len()
        invariant
            at <= terms@.len(),
            forall|i: int| 0 <= i < at ==> terms_view(terms@)[i] != term@,
        decreases terms@.len() - at,
    {
        if terms[at] == *term {
            assert(terms_view(terms@)[at as int] == term@);
            return true;
        }
        at = at + 1;
    }
    false
}

/// Merges `added` into `base`: appends, in order, each term of `added` that
/// `base` does not hold yet.
pub fn merge_into(base: &mut Vec<String>, added: &Vec<String>)
    requires
        terms_view(old(base)@).no_duplicates(),
    ensures
        terms_view(final(base)@) == merge_terms(terms_view(old(base)@), terms_view(added@)),
{
    let ghost before = terms_view(base@);
    let ghost offered = terms_view(added@);
    let mut at: usize = 0;
    while at < added.len()
        invariant
            at <= added@.len(),
            offered == terms_view(added@),
            terms_view(base@) == merge_terms(before, offered.take(at as int)),
        decreases added@.len() - at,
    {
        assert(offered.take(at + 1).drop_last() =~= offered.take(at as int));
        if !contains_term(base, &added[at]) {
            base.push(added[at].clone());
        }
        at = at + 1;
    }
    assert(offered.take(added@.len() as int) =~= offered);
}

} // verus!
