//! What a sequence holds, as it grows by one entry.

use vstd::prelude::*;
use vstd::seq_lib::lemma_seq_contains_after_push;

verus! {

/// A sequence with `v` appended holds what it held before, and `v`.
pub proof fn lemma_push_holds<A>(s: Seq<A>, v: A)
    ensures
        forall|x: A| #[trigger] s.push(v).contains(x) <==> s.contains(x) || x == v,
{
    assert forall|x: A| #[trigger] s.push(v).contains(x) <==> s.contains(x) || x == v by {
        lemma_seq_contains_after_push(s, v, x);
    }
}

/// The first `i + 1` entries of a sequence hold what the first `i` hold, and
/// entry `i`.
pub proof fn lemma_take_holds<A>(s: Seq<A>, i: int)
    requires
        0 <= i < s.len(),
    ensures
        s.take(i + 1) == s.take(i).push(s[i]),
        forall|x: A| #[trigger] s.take(i + 1).contains(x) <==> s.take(i).contains(x) || x == s[i],
{
    assert(s.take(i + 1) =~= s.take(i).push(s[i]));
    lemma_push_holds(s.take(i), s[i]);
}

/// All the entries of a sequence are the sequence, and none of them hold
/// nothing.
pub proof fn lemma_take_all<A>(s: Seq<A>)
    ensures
        s.take(s.len() as int) == s,
        forall|x: A| !(#[trigger] s.take(0).contains(x)),
{
    assert(s.take(s.len() as int) =~= s);
}

/// In a sequence without repeats, entry `i` is not among the entries
/// before it.
pub proof fn lemma_take_fresh<A>(s: Seq<A>, i: int)
    requires
        s.no_duplicates(),
        0 <= i < s.len(),
    ensures
        !s.take(i).contains(s[i]),
{
    if s.take(i).contains(s[i]) {
        let k = choose|k: int| 0 <= k < s.take(i).len() && s.take(i)[k] == s[i];
        assert(s[k] == s[i]);
    }
}

/// A sequence without repeats, with an entry appended that it did not hold,
/// is still without repeats.
pub proof fn lemma_push_fresh<A>(s: Seq<A>, v: A)
    requires
        s.no_duplicates(),
        !s.contains(v),
    ensures
        s.push(v).no_duplicates(),
{
    assert forall|a: int, b: int|
        0 <= a < s.push(v).len() && 0 <= b < s.push(v).len() && a != b implies s.push(v)[a]
        != s.push(v)[b] by {
        if a < s.len() {
            assert(s.contains(s[a]));
        }
        if b < s.len() {
            assert(s.contains(s[b]));
        }
    }
}

} // verus!
