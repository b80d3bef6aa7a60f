//! The first place of a value in a sequence.
use vstd::prelude::*;

verus! {

/// The first place at which `x` stands in `s`; the length of `s` where it
/// stands nowhere.
pub open spec fn first_index<T>(s: Seq<T>, x: T) -> int
    decreases s.len(),
{
    if s.len() == 0 || s[0] == x {
        0
    } else {
        1 + first_index(s.drop_first(), x)
    }
}

/// The place that `first_index` gives is within the sequence or just
/// behind it; within, it holds the value and nothing before it does.
pub proof fn lemma_first_index<T>(s: Seq<T>, x: T)
    ensures
        0 <= first_index(s, x) <= s.len(),
        first_index(s, x) < s.len() ==> s[first_index(s, x)] == x,
        forall|j: int| 0 <= j < first_index(s, x) ==> #[trigger] s[j] != x,
    decreases s.len(),
{
    if s.len() > 0 && s[0] != x {
        let rest = s.drop_first();
        lemma_first_index(rest, x);
        assert forall|j: int| 0 <= j < first_index(s, x) implies #[trigger] s[j] != x by {
            if j > 0 {
                assert(rest[j - 1] == s[j]);
            }
        }
    }
}

/// A value that is found keeps its place when another is put behind; one
/// that is not found is found at the new place exactly if it is the new one.
pub proof fn lemma_first_index_push<T>(s: Seq<T>, added: T, x: T)
    ensures
        first_index(s, x) < s.len() ==> first_index(s.push(added), x) == first_index(s, x),
        first_index(s, x) >= s.len() && added == x ==> first_index(s.push(added), x) == s.len(),
        first_index(s, x) >= s.len() && added != x ==> first_index(s.push(added), x) == s.len()
            + 1,
    decreases s.len(),
{
    let longer = s.push(added);
    assert(longer[0] == if s.len() == 0 {
        added
    } else {
        s[0]
    });
    if s.len() == 0 {
        assert(longer.drop_first() =~= Seq::<T>::empty());
        assert(first_index(longer.drop_first(), x) == 0);
    } else if s[0] != x {
        lemma_first_index_push(s.drop_first(), added, x);
        lemma_first_index(s.drop_first(), x);
        assert(longer.drop_first() =~= s.drop_first().push(added));
    }
}

} // verus!
