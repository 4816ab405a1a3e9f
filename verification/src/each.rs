//! Reading a list element by element, where any element may fail.

use vstd::prelude::*;

verus! {

/// What a list gives when each of its elements is read in order: the list
/// of what the elements give, or the failure of the first element that
/// fails.
pub open spec fn each_ok<A, B, E>(items: Seq<A>, read: spec_fn(A) -> Result<B, E>) -> Result<
    Seq<B>,
    E,
>
    decreases items.len(),
{
    if items.len() == 0 {
        Ok(Seq::empty())
    } else {
        match each_ok(items.drop_last(), read) {
            Err(e) => Err(e),
            Ok(init) => match read(items.last()) {
                Err(e) => Err(e),
                Ok(x) => Ok(init.push(x)),
            },
        }
    }
}

/// A failure on a prefix of a list is the failure on the whole list.
pub proof fn lemma_each_ok_failure<A, B, E>(
    items: Seq<A>,
    read: spec_fn(A) -> Result<B, E>,
    n: int,
)
    requires
        0 <= n <= items.len(),
        each_ok(items.take(n), read) is Err,
    ensures
        each_ok(items, read) == each_ok(items.take(n), read),
    decreases items.len() - n,
{
    if n < items.len() {
        let longer = items.take(n + 1);
        assert(longer.drop_last() =~= items.take(n));
        lemma_each_ok_failure(items, read, n + 1);
    } else {
        assert(items.take(n) =~= items);
    }
}

/// Where every element is read, the result has an entry for each element:
/// what that element gives.
pub proof fn lemma_each_ok_entries<A, B, E>(items: Seq<A>, read: spec_fn(A) -> Result<B, E>)
    requires
        each_ok(items, read) is Ok,
    ensures
        each_ok(items, read)->Ok_0.len() == items.len(),
        forall|i: int|
            0 <= i < items.len() ==> read(items[i]) == Ok::<B, E>(
                #[trigger] each_ok(items, read)->Ok_0[i],
            ),
    decreases items.len(),
{
    if items.len() > 0 {
        lemma_each_ok_entries(items.drop_last(), read);
    }
}

} // verus!
