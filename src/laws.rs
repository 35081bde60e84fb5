use vstd::prelude::*;
use crate::outcome::{Outcome, items, item_values, only_items_and_waits};
use crate::state::{step, run, buffer_after};

verus! {

/// How many of `n` received items an adapter of capacity `amt` has handed on.
pub open spec fn released(amt: nat, n: nat) -> nat {
    if n > amt { (n - amt) as nat } else { 0 }
}

proof fn lemma_items_then_end<T, E>(amt: nat, buf: Seq<T>, ys: Seq<T>)
    requires
        buf.len() <= amt,
    ensures
        run(amt, buf, items::<T, E>(ys).push(Outcome::End))
            == items::<T, E>((buf + ys).take(released(amt, (buf + ys).len()) as int)).push(Outcome::End),
    decreases ys.len(),
{
    let all = buf + ys;
    let k = released(amt, all.len()) as int;
    let ev = items::<T, E>(ys).push(Outcome::End);
    if ys.len() == 0 {
        assert(ev.drop_first() =~= Seq::<Outcome<T, E>>::empty());
        assert(all.take(k) =~= Seq::<T>::empty());
        assert(items::<T, E>(all.take(k)) =~= Seq::<Outcome<T, E>>::empty());
        assert(run(amt, Seq::<T>::empty(), ev.drop_first()) == Seq::<Outcome<T, E>>::empty());
        assert(seq![Outcome::<T, E>::End] + Seq::<Outcome<T, E>>::empty() =~= seq![Outcome::<T, E>::End]);
        assert(items::<T, E>(all.take(k)).push(Outcome::End) =~= seq![Outcome::<T, E>::End]);
    } else {
        let rest = ys.drop_first();
        assert(ev[0] == Outcome::<T, E>::Item(ys[0]));
        assert(ev.drop_first() =~= items::<T, E>(rest).push(Outcome::End));
        let b = buf.push(ys[0]);
        assert(b + rest =~= all);
        if b.len() > amt {
            lemma_items_then_end::<T, E>(amt, b.drop_first(), rest);
            assert(b.drop_first() + rest =~= all.drop_first());
            assert(released(amt, all.drop_first().len()) == k - 1);
            assert(all.take(k) =~= seq![all[0]] + all.drop_first().take(k - 1));
            assert(items::<T, E>(all.take(k)).push(Outcome::End) =~= seq![Outcome::<T, E>::Item(b[0])]
                + items::<T, E>(all.drop_first().take(k - 1)).push(Outcome::End));
        } else {
            lemma_items_then_end::<T, E>(amt, b, rest);
        }
    }
}

/// Fed the items `xs` and then the end of the sequence, an adapter of
/// capacity `amt` answers with the items of `xs` but its last `min(amt, n)`,
/// in their order, and then with the end.
pub proof fn lemma_drops_last<T, E>(amt: nat, xs: Seq<T>)
    ensures
        run(amt, Seq::<T>::empty(), items::<T, E>(xs).push(Outcome::End))
            == items::<T, E>(xs.take(xs.len() - if amt < xs.len() { amt as int } else { xs.len() as int })).push(Outcome::End),
{
    lemma_items_then_end::<T, E>(amt, Seq::empty(), xs);
    assert(Seq::<T>::empty() + xs =~= xs);
}

/// With capacity zero the adapter hands on every item, in order, and then the end.
pub proof fn lemma_zero_capacity_passes_through<T, E>(xs: Seq<T>)
    ensures
        run(0, Seq::<T>::empty(), items::<T, E>(xs).push(Outcome::End)) == items::<T, E>(xs).push(Outcome::End),
{
    lemma_drops_last::<T, E>(0, xs);
    assert(xs.take(xs.len() as int) =~= xs);
}

/// Fed at most `amt` items and then the end, the adapter hands on no item:
/// its only answer is the end.
pub proof fn lemma_short_input_yields_nothing<T, E>(amt: nat, xs: Seq<T>)
    requires
        xs.len() <= amt,
    ensures
        run(amt, Seq::<T>::empty(), items::<T, E>(xs).push(Outcome::End)) == seq![Outcome::<T, E>::End],
{
    lemma_drops_last::<T, E>(amt, xs);
    assert(xs.take(0) =~= Seq::<T>::empty());
    assert(items::<T, E>(Seq::<T>::empty()) =~= Seq::<Outcome<T, E>>::empty());
    assert(items::<T, E>(xs.take(0)).push(Outcome::End) =~= seq![Outcome::<T, E>::End]);
}

/// While the source answers only with items and "not ready", the items that
/// the adapter hands on are the oldest of those it has received, all but the
/// `amt` newest, in order, and the newest stay in its buffer: no item leaves
/// before `amt` newer ones have arrived behind it.
pub proof fn lemma_no_early_release<T, E>(amt: nat, buf: Seq<T>, events: Seq<Outcome<T, E>>)
    requires
        buf.len() <= amt,
        only_items_and_waits(events),
    ensures
        item_values(run(amt, buf, events))
            == (buf + item_values(events)).take(released(amt, (buf + item_values(events)).len()) as int),
        buffer_after(amt, buf, events)
            == (buf + item_values(events)).skip(released(amt, (buf + item_values(events)).len()) as int),
    decreases events.len(),
{
    let all = buf + item_values(events);
    let k = released(amt, all.len()) as int;
    if events.len() == 0 {
        assert(all =~= buf);
        assert(all.take(k) =~= Seq::<T>::empty());
        assert(all.skip(k) =~= buf);
    } else {
        let rest = events.drop_first();
        assert forall|i: int| 0 <= i < rest.len() implies (#[trigger] rest[i] is Item || rest[i] is NotReady) by {
            assert(rest[i] == events[i + 1]);
        }
        assert(events[0] is Item || events[0] is NotReady);
        let (next, out) = step(amt, buf, events[0]);
        let tail = run(amt, next, rest);
        match events[0] {
            Outcome::Item(x) => {
                let b = buf.push(x);
                assert(b + item_values(rest) =~= all);
                lemma_no_early_release::<T, E>(amt, next, rest);
                if b.len() > amt {
                    assert(b.drop_first() + item_values(rest) =~= all.drop_first());
                    assert((seq![Outcome::<T, E>::Item(b[0])] + tail).drop_first() =~= tail);
                    assert(all.take(k) =~= seq![all[0]] + all.drop_first().take(k - 1));
                    assert(all.drop_first().skip(k - 1) =~= all.skip(k));
                }
            },
            _ => {
                lemma_no_early_release::<T, E>(amt, buf, rest);
                assert((seq![Outcome::<T, E>::NotReady] + tail).drop_first() =~= tail);
            },
        }
    }
}

/// An error from the source is handed on as it is, and nothing that was
/// buffered before it shows in any later answer: the adapter goes on as if
/// its buffer had been empty.
pub proof fn lemma_error_forgets_buffer<T, E>(amt: nat, buf: Seq<T>, e: E, later: Seq<Outcome<T, E>>)
    ensures
        run(amt, buf, seq![Outcome::Error(e)] + later) == seq![Outcome::<T, E>::Error(e)] + run(amt, Seq::<T>::empty(), later),
{
    let events = seq![Outcome::Error(e)] + later;
    assert(events[0] == Outcome::<T, E>::Error(e));
    assert(events.drop_first() =~= later);
}

/// The end of the sequence is handed on at once, and nothing that was
/// buffered before it shows in any later answer.
pub proof fn lemma_end_forgets_buffer<T, E>(amt: nat, buf: Seq<T>, later: Seq<Outcome<T, E>>)
    ensures
        run(amt, buf, seq![Outcome::End] + later) == seq![Outcome::<T, E>::End] + run(amt, Seq::<T>::empty(), later),
{
    let events = seq![Outcome::End] + later;
    assert(events[0] == Outcome::<T, E>::End);
    assert(events.drop_first() =~= later);
}

/// Polled `k` times while the source answers "not ready" each time, the
/// adapter answers "not ready" each time and its buffer stays as it was.
pub proof fn lemma_waiting_is_idle<T, E>(amt: nat, buf: Seq<T>, k: nat)
    ensures
        run(amt, buf, Seq::new(k, |i: int| Outcome::<T, E>::NotReady)) == Seq::new(k, |i: int| Outcome::<T, E>::NotReady),
        buffer_after(amt, buf, Seq::new(k, |i: int| Outcome::<T, E>::NotReady)) == buf,
    decreases k,
{
    let w = Seq::new(k, |i: int| Outcome::<T, E>::NotReady);
    if k > 0 {
        let w1 = Seq::new((k - 1) as nat, |i: int| Outcome::<T, E>::NotReady);
        assert(w.drop_first() =~= w1);
        lemma_waiting_is_idle::<T, E>(amt, buf, (k - 1) as nat);
        assert(seq![Outcome::<T, E>::NotReady] + w1 =~= w);
    }
}

} // verus!
