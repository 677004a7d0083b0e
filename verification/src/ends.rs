//! Taking from both ends, in any order.
//!
//! An iterator over a view yields from the front with `next` and from the
//! back with `next_back`. `next` yields the first of the elements that are
//! left and leaves the others; `next_back` does the same with the last. This
//! module follows a whole run of such calls on the sequence of elements and
//! shows that, whatever the order of the calls, every element is yielded
//! once.

use vstd::prelude::*;

verus! {

/// The end of an iterator that an element is taken from.
pub enum End {
    /// The end that `next` takes from.
    Front,
    /// The end that `next_back` takes from.
    Back,
}

/// What a run of calls has yielded and what it has left.
pub struct Taken<T> {
    /// The elements that came from the front, in the order in which they came.
    pub front: Seq<T>,
    /// The elements that came from the back, in the order in which they came.
    pub back: Seq<T>,
    /// The elements that are left, in the order of the view.
    pub rest: Seq<T>,
}

/// One call: where an element is left, the one at `end` moves from `rest` to
/// what came from that end; where none is left, nothing changes.
pub open spec fn take_one<T>(state: Taken<T>, end: End) -> Taken<T> {
    if state.rest.len() == 0 {
        state
    } else {
        match end {
            End::Front => Taken {
                front: state.front.push(state.rest.first()),
                back: state.back,
                rest: state.rest.drop_first(),
            },
            End::Back => Taken {
                front: state.front,
                back: state.back.push(state.rest.last()),
                rest: state.rest.drop_last(),
            },
        }
    }
}

/// A run of calls on a fresh iterator over `items`, one call for each entry
/// of `ends`, in that order.
pub open spec fn take_all<T>(items: Seq<T>, ends: Seq<End>) -> Taken<T>
    decreases ends.len(),
{
    if ends.len() == 0 {
        Taken { front: Seq::empty(), back: Seq::empty(), rest: items }
    } else {
        take_one(take_all(items, ends.drop_last()), ends.last())
    }
}

/// Whatever the order of the calls, every element is yielded once or is still
/// left, and none is yielded twice: what came from the front, what is left and
/// what came from the back, the last in reverse, make up the view as it was.
/// So what comes from the front comes in the order of the view, and what
/// comes from the back in the reverse of it.
pub proof fn lemma_each_once<T>(items: Seq<T>, ends: Seq<End>)
    ensures
        ({
            let taken = take_all(items, ends);
            taken.front + taken.rest + taken.back.reverse() == items
        }),
    decreases ends.len(),
{
    let taken = take_all(items, ends);
    if ends.len() == 0 {
        assert(taken.back.reverse() =~= Seq::<T>::empty());
        assert(taken.front + taken.rest + taken.back.reverse() =~= items);
    } else {
        let before = take_all(items, ends.drop_last());
        lemma_each_once(items, ends.drop_last());
        if before.rest.len() > 0 {
            match ends.last() {
                End::Front => {
                    assert(taken.front + taken.rest =~= before.front + before.rest);
                },
                End::Back => {
                    assert(taken.back.reverse() =~= seq![before.rest.last()]
                        + before.back.reverse());
                    assert(taken.rest + taken.back.reverse() =~= before.rest
                        + before.back.reverse());
                    assert(taken.front + taken.rest + taken.back.reverse() =~= before.front + (
                    taken.rest + taken.back.reverse()));
                    assert(before.front + before.rest + before.back.reverse() =~= before.front + (
                    before.rest + before.back.reverse()));
                },
            }
        }
    }
}

/// Every call yields one element as long as one is left: after `k` calls on
/// a view of `n` elements, `k` elements have been yielded and `n - k` are
/// left, or all `n` have been yielded and none is left.
pub proof fn lemma_count<T>(items: Seq<T>, ends: Seq<End>)
    ensures
        ({
            let taken = take_all(items, ends);
            if ends.len() <= items.len() {
                &&& taken.front.len() + taken.back.len() == ends.len()
                &&& taken.rest.len() == items.len() - ends.len()
            } else {
                &&& taken.front.len() + taken.back.len() == items.len()
                &&& taken.rest.len() == 0
            }
        }),
    decreases ends.len(),
{
    if ends.len() > 0 {
        lemma_count(items, ends.drop_last());
    }
}

/// Taken from the front alone, the elements come in the order of the view,
/// and as many calls as the view has elements yield all of them.
pub proof fn lemma_forward<T>(items: Seq<T>, ends: Seq<End>)
    requires
        forall|i: int| 0 <= i < ends.len() ==> ends[i] == End::Front,
    ensures
        take_all(items, ends).back == Seq::<T>::empty(),
        ends.len() <= items.len() ==> take_all(items, ends).front == items.subrange(
            0,
            ends.len() as int,
        ),
        ends.len() >= items.len() ==> take_all(items, ends).front == items,
    decreases ends.len(),
{
    let taken = take_all(items, ends);
    lemma_each_once(items, ends);
    lemma_count(items, ends);
    if ends.len() > 0 {
        lemma_forward(items, ends.drop_last());
    }
    assert(taken.back.reverse() =~= Seq::<T>::empty());
    if ends.len() <= items.len() {
        assert(taken.front =~= (taken.front + taken.rest).subrange(0, ends.len() as int));
        assert(taken.front + taken.rest =~= taken.front + taken.rest + taken.back.reverse());
    } else {
        assert(taken.front =~= taken.front + taken.rest + taken.back.reverse());
    }
}

/// Taken from the back alone, the elements come in the reverse of the order
/// of the view, and as many calls as the view has elements yield all of
/// them.
pub proof fn lemma_backward<T>(items: Seq<T>, ends: Seq<End>)
    requires
        forall|i: int| 0 <= i < ends.len() ==> ends[i] == End::Back,
    ensures
        take_all(items, ends).front == Seq::<T>::empty(),
        ends.len() <= items.len() ==> take_all(items, ends).back == items.reverse().subrange(
            0,
            ends.len() as int,
        ),
        ends.len() >= items.len() ==> take_all(items, ends).back == items.reverse(),
    decreases ends.len(),
{
    let taken = take_all(items, ends);
    lemma_each_once(items, ends);
    lemma_count(items, ends);
    if ends.len() > 0 {
        lemma_backward(items, ends.drop_last());
    }
    assert(taken.rest + taken.back.reverse() =~= taken.front + taken.rest + taken.back.reverse());
    assert(taken.back =~= taken.back.reverse().reverse());
    if ends.len() <= items.len() {
        assert(taken.back =~= items.reverse().subrange(0, ends.len() as int));
    } else {
        assert(taken.back.reverse() =~= taken.rest + taken.back.reverse());
        assert(taken.back =~= items.reverse());
    }
}

} // verus!
