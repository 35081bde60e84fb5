use vstd::prelude::*;

verus! {

/// One answer to a poll: of the source to the adapter, or of the adapter to
/// its caller.
#[derive(Debug, Clone, PartialEq, Eq)]
pub enum Outcome<T, E> {
    /// An item is ready.
    Item(T),
    /// The sequence is exhausted; no item will ever come.
    End,
    /// No item is available yet; poll again later.
    NotReady,
    /// The sequence failed.
    Error(E),
}

/// Each value of `xs`, in order, as an item answer.
pub open spec fn items<T, E>(xs: Seq<T>) -> Seq<Outcome<T, E>> {
    Seq::new(xs.len(), |i: int| Outcome::Item(xs[i]))
}

/// The values of the item answers among `os`, in order.
pub open spec fn item_values<T, E>(os: Seq<Outcome<T, E>>) -> Seq<T>
    decreases os.len(),
{
    if os.len() == 0 {
        Seq::empty()
    } else {
        let rest = item_values(os.drop_first());
        match os[0] {
            Outcome::Item(x) => seq![x] + rest,
            _ => rest,
        }
    }
}

/// Every answer in `os` is an item or a "not ready".
pub open spec fn only_items_and_waits<T, E>(os: Seq<Outcome<T, E>>) -> bool {
    forall|i: int| 0 <= i < os.len() ==> (#[trigger] os[i] is Item || os[i] is NotReady)
}

} // verus!
