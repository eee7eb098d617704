//! Prefixes of sequences: the registry and the formula only ever grow at the
//! end, so what was there before is a prefix of what is there after.

use vstd::prelude::*;

verus! {

/// A sequence is a prefix of itself.
pub proof fn lemma_prefix_reflexive<A>(s: Seq<A>)
    ensures
        s.is_prefix_of(s),
{
    assert(s =~= s.subrange(0, s.len() as int));
}

/// A prefix of a prefix is a prefix.
pub proof fn lemma_prefix_transitive<A>(a: Seq<A>, b: Seq<A>, c: Seq<A>)
    requires
        a.is_prefix_of(b),
        b.is_prefix_of(c),
    ensures
        a.is_prefix_of(c),
{
    assert forall|i: int| 0 <= i < a.len() implies a[i] == c[i] by {
        assert(a[i] == b.subrange(0, a.len() as int)[i]);
        assert(b[i] == c.subrange(0, b.len() as int)[i]);
    }
    assert(a =~= c.subrange(0, a.len() as int));
}

/// A prefix is the whole sequence cut at the prefix's length.
pub proof fn lemma_prefix_of_length<A>(part: Seq<A>, whole: Seq<A>)
    requires
        part.is_prefix_of(whole),
    ensures
        part == whole.take(part.len() as int),
{
    assert(part =~= whole.take(part.len() as int));
}

/// What a prefix holds, the whole sequence holds.
pub proof fn lemma_prefix_contains<A>(part: Seq<A>, whole: Seq<A>, item: A)
    requires
        part.is_prefix_of(whole),
        part.contains(item),
    ensures
        whole.contains(item),
{
    let i = part.index_of(item);
    assert(part[i] == whole.subrange(0, part.len() as int)[i]);
    assert(whole[i] == item);
}

/// A sequence begins every sequence made by appending to it.
pub proof fn lemma_prefix_of_sum<A>(first: Seq<A>, rest: Seq<A>)
    ensures
        first.is_prefix_of(first + rest),
{
    assert(first =~= (first + rest).subrange(0, first.len() as int));
}

/// A sequence begins its concatenation with another, and concatenation after
/// a common part keeps prefixes.
pub proof fn lemma_prefix_concat<A>(common: Seq<A>, part: Seq<A>, whole: Seq<A>)
    requires
        part.is_prefix_of(whole),
    ensures
        common.is_prefix_of(common + part),
        (common + part).is_prefix_of(common + whole),
{
    assert(common =~= (common + part).subrange(0, common.len() as int));
    assert forall|i: int| 0 <= i < (common + part).len() implies (common + part)[i] == (common
        + whole)[i] by {
        if i >= common.len() {
            assert(part[i - common.len()] == whole.subrange(0, part.len() as int)[i
                - common.len()]);
        }
    }
    assert((common + part) =~= (common + whole).subrange(0, (common + part).len() as int));
}

} // verus!
