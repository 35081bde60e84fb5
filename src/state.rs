use vstd::prelude::*;
use std::collections::VecDeque;
use crate::outcome::Outcome;

verus! {

/// The result of handing one source answer to an adapter of capacity `amt`
/// whose buffer is `buf`: the buffer afterwards, and the answer for the
/// adapter's caller, or `None` where the adapter polls the source again.
pub open spec fn step<T, E>(amt: nat, buf: Seq<T>, polled: Outcome<T, E>) -> (Seq<T>, Option<Outcome<T, E>>) {
    match polled {
        Outcome::Item(x) => {
            let b = buf.push(x);
            if b.len() > amt {
                (b.drop_first(), Some(Outcome::Item(b[0])))
            } else {
                (b, None)
            }
        },
        Outcome::End => (Seq::empty(), Some(Outcome::End)),
        Outcome::NotReady => (buf, Some(Outcome::NotReady)),
        Outcome::Error(e) => (Seq::empty(), Some(Outcome::Error(e))),
    }
}

/// The answers that the adapter's callers receive, in order, when the source
/// answers its polls with `events`, starting from the buffer `buf`.
pub open spec fn run<T, E>(amt: nat, buf: Seq<T>, events: Seq<Outcome<T, E>>) -> Seq<Outcome<T, E>>
    decreases events.len(),
{
    if events.len() == 0 {
        Seq::empty()
    } else {
        let (next, out) = step(amt, buf, events[0]);
        let rest = run(amt, next, events.drop_first());
        match out {
            Some(o) => seq![o] + rest,
            None => rest,
        }
    }
}

/// The buffer after the source has answered with `events`, starting from `buf`.
pub open spec fn buffer_after<T, E>(amt: nat, buf: Seq<T>, events: Seq<Outcome<T, E>>) -> Seq<T>
    decreases events.len(),
{
    if events.len() == 0 {
        buf
    } else {
        buffer_after(amt, step(amt, buf, events[0]).0, events.drop_first())
    }
}

/// The state of the delaying adapter: its capacity and the items it holds
/// back, oldest first.
#[derive(Debug)]
pub struct AfterState<T> {
    amt: usize,
    items: VecDeque<T>,
}

impl<T> View for AfterState<T> {
    type V = Seq<T>;

    /// The buffered items, oldest first.
    closed spec fn view(&self) -> Seq<T> {
        self.items@
    }
}

impl<T> AfterState<T> {
    /// The capacity fixed at construction.
    pub closed spec fn capacity(&self) -> nat {
        self.amt as nat
    }

    /// Between polls the buffer holds at most `amt` items.
    pub open spec fn wf(&self) -> bool {
        self@.len() <= self.capacity()
    }

    /// An adapter state of capacity `amt` with an empty buffer.
    pub fn new(amt: usize) -> (r: Self)
        ensures
            r.capacity() == amt,
            r@ == Seq::<T>::empty(),
            r.wf(),
    {
        // The buffer grows as items arrive rather than being allocated for
        // `amt` up front, so that a large capacity cannot fail to allocate.
        AfterState { amt, items: VecDeque::new() }
    }

    /// The capacity: how many of the newest items are held back.
    pub fn amt(&self) -> (r: usize)
        ensures
            r == self.capacity(),
    {
        self.amt
    }

    /// How many items the buffer holds now.
    pub fn buffered(&self) -> (r: usize)
        ensures
            r == self@.len(),
    {
        self.items.len()
    }

    /// Takes the source's answer to one poll. Returns the answer for the
    /// adapter's caller, or `None` where the source is to be polled again.
    ///
    /// An item is appended to the buffer; once the buffer holds more than
    /// `amt` items its oldest is taken out and returned. End of sequence and
    /// an error are passed on, and the buffered items are dropped. "Not
    /// ready" is passed on and the buffer is kept as it is.
    pub fn on_poll<E>(&mut self, polled: Outcome<T, E>) -> (r: Option<Outcome<T, E>>)
        requires
            old(self).wf(),
        ensures
            final(self).wf(),
            final(self).capacity() == old(self).capacity(),
            (final(self)@, r) == step(old(self).capacity(), old(self)@, polled),
    {
        match polled {
            Outcome::Item(x) => {
                self.items.push_back(x);
                if self.items.len() > self.amt {
                    match self.items.pop_front() {
                        Some(first) => Some(Outcome::Item(first)),
                        None => None,
                    }
                } else {
                    None
                }
            },
            Outcome::End => {
                self.items.clear();
                Some(Outcome::End)
            },
            Outcome::NotReady => Some(Outcome::NotReady),
            Outcome::Error(e) => {
                self.items.clear();
                Some(Outcome::Error(e))
            },
        }
    }
}

} // verus!
