//! What a sequence of things amounts to, taken together.
use vstd::prelude::*;

verus! {

/// What `part` takes out of each of `things`, one after the other.
pub open spec fn gather<T, A>(things: Seq<T>, part: spec_fn(T) -> Seq<A>) -> Seq<A>
    decreases things.len(),
{
    if things.len() == 0 {
        Seq::empty()
    } else {
        gather(things.drop_last(), part) + part(things.last())
    }
}

/// One more thing adds its part behind the others.
pub proof fn lemma_gather_push<T, A>(things: Seq<T>, thing: T, part: spec_fn(T) -> Seq<A>)
    ensures
        gather(things.push(thing), part) == gather(things, part) + part(thing),
{
    assert(things.push(thing).drop_last() =~= things);
}

/// A single thing amounts to its part.
pub proof fn lemma_gather_one<T, A>(thing: T, part: spec_fn(T) -> Seq<A>)
    ensures
        gather(seq![thing], part) == part(thing),
{
    assert(seq![thing].drop_last() =~= Seq::<T>::empty());
    assert(gather(Seq::<T>::empty(), part) =~= Seq::<A>::empty());
    assert(gather(seq![thing], part) =~= part(thing));
}

/// Two sequences in a row amount to what they amount to, in a row.
pub proof fn lemma_gather_add<T, A>(left: Seq<T>, right: Seq<T>, part: spec_fn(T) -> Seq<A>)
    ensures
        gather(left + right, part) == gather(left, part) + gather(right, part),
    decreases right.len(),
{
    if right.len() == 0 {
        assert(left + right =~= left);
        assert(gather(left, part) + gather(right, part) =~= gather(left, part));
    } else {
        assert((left + right).drop_last() =~= left + right.drop_last());
        lemma_gather_add(left, right.drop_last(), part);
        assert(gather(left + right, part) =~= gather(left, part) + gather(right, part));
    }
}

/// Where no thing has a part, they amount to nothing.
pub proof fn lemma_gather_none<T, A>(things: Seq<T>, part: spec_fn(T) -> Seq<A>)
    requires
        forall|i: int| 0 <= i < things.len() ==> part(#[trigger] things[i]).len() == 0,
    ensures
        gather(things, part) == Seq::<A>::empty(),
    decreases things.len(),
{
    if things.len() > 0 {
        lemma_gather_none(things.drop_last(), part);
        assert(part(things.last()) =~= Seq::<A>::empty());
        assert(gather(things, part) =~= Seq::<A>::empty());
    }
}

} // verus!
