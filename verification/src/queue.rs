//! The lookahead buffer's storage: a bounded queue of cells, kept in
//! heapless's deque.
use crate::lexer::TokenBox;
use vstd::prelude::*;

verus! {

/// A deque of heapless behind its capacity-erased view, so that queues of
/// every capacity have one type.
#[verifier::external_body]
pub struct TokenQueue {
    inner: Box<heapless::deque::DequeView<TokenBox>>,
}

/// The cells in the queue, front first.
pub uninterp spec fn queue_items(q: &TokenQueue) -> Seq<TokenBox>;

/// The number of cells that the queue was made for.
pub uninterp spec fn queue_capacity(q: &TokenQueue) -> nat;

/// Calls `heapless::Deque::new`, which gives an empty deque for `N` items.
/// A capacity of zero does not compile there.
#[verifier::external_body]
pub(crate) fn queue_new<const N: usize>() -> (q: TokenQueue)
    requires
        N > 0,
    ensures
        queue_items(&q) == Seq::<TokenBox>::empty(),
        queue_capacity(&q) == N,
{
    TokenQueue { inner: Box::new(heapless::Deque::<TokenBox, N>::new()) }
}

/// Calls `DequeInner::storage_len`: the number of items in the deque.
#[verifier::external_body]
pub(crate) fn queue_len(q: &TokenQueue) -> (n: usize)
    ensures
        n == queue_items(q).len(),
{
    q.inner.storage_len()
}

/// Calls `DequeInner::get`: the item at `index`, counted from the front, or
/// nothing if the deque holds no more than `index` items.
#[verifier::external_body]
pub(crate) fn queue_get(q: &TokenQueue, index: usize) -> (r: Option<&TokenBox>)
    ensures
        r == if index < queue_items(q).len() {
            Some(&queue_items(q)[index as int])
        } else {
            None
        },
{
    q.inner.get(index)
}

/// Calls `DequeInner::back`: the item that was pushed last, or nothing if
/// the deque is empty.
#[verifier::external_body]
pub(crate) fn queue_back(q: &TokenQueue) -> (r: Option<&TokenBox>)
    ensures
        r == if queue_items(q).len() > 0 {
            Some(&queue_items(q).last())
        } else {
            None
        },
{
    q.inner.back()
}

/// Calls `DequeInner::push_back`: appends the item, or hands it back if the
/// deque already holds as many items as it was made for.
#[verifier::external_body]
pub(crate) fn queue_push_back(q: &mut TokenQueue, item: TokenBox) -> (r: Result<(), TokenBox>)
    ensures
        queue_capacity(final(q)) == queue_capacity(old(q)),
        r is Ok <==> queue_items(old(q)).len() < queue_capacity(old(q)),
        r is Ok ==> queue_items(final(q)) == queue_items(old(q)).push(item),
        r matches Err(back) ==> back == item && queue_items(final(q)) == queue_items(old(q)),
{
    q.inner.push_back(item)
}

/// Calls `DequeInner::pop_front`: removes and returns the front item, or
/// returns nothing and changes nothing if the deque is empty.
#[verifier::external_body]
pub(crate) fn queue_pop_front(q: &mut TokenQueue) -> (r: Option<TokenBox>)
    ensures
        queue_capacity(final(q)) == queue_capacity(old(q)),
        queue_items(old(q)).len() == 0 ==> r.is_none() && queue_items(final(q)) == queue_items(
            old(q),
        ),
        queue_items(old(q)).len() > 0 ==> r == Some(queue_items(old(q))[0]) && queue_items(
            final(q),
        ) == queue_items(old(q)).drop_first(),
{
    q.inner.pop_front()
}

} // verus!
