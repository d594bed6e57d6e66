use vstd::prelude::*;
use vstd::multiset::Multiset;
use vstd::seq_lib::lemma_multiset_commutative;

verus! {

/// What removing from the end does to a sequence of elements: the element
/// handed back (`None` when empty) and the sequence that remains.
pub open spec fn popped<T>(s: Seq<T>) -> (Option<T>, Seq<T>) {
    if s.len() == 0 {
        (None, s)
    } else {
        (Some(s.last()), s.drop_last())
    }
}

/// What taking from the front does to a sequence of elements: the element
/// handed back (`None` when empty) and the sequence that remains.
pub open spec fn taken_front<T>(s: Seq<T>) -> (Option<T>, Seq<T>) {
    if s.len() == 0 {
        (None, s)
    } else {
        (Some(s[0]), s.drop_first())
    }
}

/// A consuming traversal of `s` driven by `moves`, one step each: `true`
/// takes from the front, `false` from the back. The result is the elements
/// handed out, in the order they came, and those that remain.
pub open spec fn traverse<T>(s: Seq<T>, moves: Seq<bool>) -> (Seq<T>, Seq<T>)
    decreases moves.len(),
{
    if moves.len() == 0 {
        (Seq::empty(), s)
    } else {
        let step = if moves[0] {
            taken_front(s)
        } else {
            popped(s)
        };
        let rest = traverse(step.1, moves.drop_first());
        match step.0 {
            Some(x) => (seq![x] + rest.0, rest.1),
            None => rest,
        }
    }
}

/// The elements held by the occupied slots of `slots`, each counted once
/// per slot: what discarding those slots destroys.
pub open spec fn occupied<T>(slots: Seq<Option<T>>) -> Multiset<T>
    decreases slots.len(),
{
    if slots.len() == 0 {
        Multiset::empty()
    } else {
        let rest = occupied(slots.drop_last());
        match slots.last() {
            Some(x) => rest.insert(x),
            None => rest,
        }
    }
}

/// The elements in slots `[lo, hi)`, in order.
pub open spec fn unwrapped<T>(slots: Seq<Option<T>>, lo: int, hi: int) -> Seq<T> {
    Seq::new((hi - lo) as nat, |i: int| slots[lo + i]->Some_0)
}

/// Where exactly the slots in `[lo, hi)` are occupied, the occupied slots
/// hold the elements of that range, each once.
pub proof fn lemma_occupied_range<T>(slots: Seq<Option<T>>, lo: int, hi: int)
    requires
        0 <= lo <= hi <= slots.len(),
        forall|i: int| lo <= i < hi ==> (#[trigger] slots[i]) is Some,
        forall|i: int| 0 <= i < slots.len() && !(lo <= i < hi) ==> (#[trigger] slots[i]) is None,
    ensures
        occupied(slots) == unwrapped(slots, lo, hi).to_multiset(),
{
    lemma_occupied_prefix(slots, lo, hi, slots.len() as int);
    assert(slots.subrange(0, slots.len() as int) =~= slots);
}

proof fn lemma_occupied_prefix<T>(slots: Seq<Option<T>>, lo: int, hi: int, k: int)
    requires
        0 <= lo <= hi <= slots.len(),
        0 <= k <= slots.len(),
        forall|i: int| lo <= i < hi ==> (#[trigger] slots[i]) is Some,
        forall|i: int| 0 <= i < slots.len() && !(lo <= i < hi) ==> (#[trigger] slots[i]) is None,
    ensures
        occupied(slots.subrange(0, k)) == unwrapped(
            slots,
            lo,
            if k < lo {
                lo
            } else if k > hi {
                hi
            } else {
                k
            },
        ).to_multiset(),
    decreases k,
{
    broadcast use vstd::seq_lib::group_to_multiset_ensures;

    let m = if k < lo {
        lo
    } else if k > hi {
        hi
    } else {
        k
    };
    if k == 0 {
        assert(unwrapped(slots, lo, m) =~= Seq::<T>::empty());
    } else {
        lemma_occupied_prefix(slots, lo, hi, k - 1);
        let pre = slots.subrange(0, k);
        assert(pre.drop_last() =~= slots.subrange(0, k - 1));
        assert(pre.last() == slots[k - 1]);
        let m1 = if k - 1 < lo {
            lo
        } else if k - 1 > hi {
            hi
        } else {
            k - 1
        };
        if lo <= k - 1 < hi {
            assert(unwrapped(slots, lo, m) =~= unwrapped(slots, lo, m1).push(slots[k - 1]->Some_0));
        } else {
            assert(unwrapped(slots, lo, m) =~= unwrapped(slots, lo, m1));
        }
    }
}

/// The sequence after appending the elements of `xs` one by one.
pub open spec fn push_all<T>(s: Seq<T>, xs: Seq<T>) -> Seq<T>
    decreases xs.len(),
{
    if xs.len() == 0 {
        s
    } else {
        push_all(s.push(xs[0]), xs.drop_first())
    }
}

/// The results of `n` removals from the end, in the order they come.
pub open spec fn pop_n<T>(s: Seq<T>, n: nat) -> Seq<Option<T>>
    decreases n,
{
    if n == 0 {
        Seq::empty()
    } else {
        seq![popped(s).0] + pop_n(popped(s).1, (n - 1) as nat)
    }
}

/// Appending never loses or reorders elements: appending `xs` one by one,
/// through any number of growths, leaves `s` followed by `xs`.
pub proof fn lemma_push_all_appends<T>(s: Seq<T>, xs: Seq<T>)
    ensures
        push_all(s, xs) == s + xs,
    decreases xs.len(),
{
    if xs.len() == 0 {
        assert(s + xs =~= s);
    } else {
        lemma_push_all_appends(s.push(xs[0]), xs.drop_first());
        assert(s.push(xs[0]) + xs.drop_first() =~= s + xs);
    }
}

/// The first `n` removals from the end of `s` hand back its last `n`
/// elements, last first; further removals hand back nothing.
pub proof fn lemma_pop_n<T>(s: Seq<T>, n: nat)
    ensures
        pop_n(s, n).len() == n,
        forall|i: int| 0 <= i < n && i < s.len() ==> #[trigger] pop_n(s, n)[i] == Some(s[s.len() - 1 - i]),
        forall|i: int| s.len() <= i < n ==> #[trigger] pop_n(s, n)[i] is None,
    decreases n,
{
    if n > 0 {
        let t = popped(s).1;
        lemma_pop_n(t, (n - 1) as nat);
        assert forall|i: int| 0 <= i < n && i < s.len() implies #[trigger] pop_n(s, n)[i] == Some(
            s[s.len() - 1 - i],
        ) by {
            if i > 0 {
                assert(pop_n(s, n)[i] == pop_n(t, (n - 1) as nat)[i - 1]);
            }
        }
        assert forall|i: int| s.len() <= i < n implies #[trigger] pop_n(s, n)[i] is None by {
            if i > 0 {
                assert(pop_n(s, n)[i] == pop_n(t, (n - 1) as nat)[i - 1]);
            }
        }
    }
}

/// Appending the elements of `xs` to an empty sequence and then removing
/// from the end `xs.len() + 1` times hands them back in reverse order of
/// insertion, followed by nothing.
pub proof fn lemma_pops_reverse_pushes<T>(xs: Seq<T>)
    ensures
        pop_n(push_all(Seq::empty(), xs), xs.len() + 1) == xs.reverse().map_values(
            |x: T| Some(x),
        ).push(None),
{
    let n = xs.len();
    lemma_push_all_appends(Seq::empty(), xs);
    assert(Seq::<T>::empty() + xs =~= xs);
    lemma_pop_n(xs, n + 1);
    assert(pop_n(xs, n + 1) =~= xs.reverse().map_values(|x: T| Some(x)).push(None));
}

/// Taking from either end, in any interleaving, never hands out an element
/// twice and never skips one: what remains is a contiguous run of `s`, and
/// the elements handed out together with those that remain are exactly the
/// elements of `s`, each once.
pub proof fn lemma_traverse_hands_out_each_once<T>(s: Seq<T>, moves: Seq<bool>)
    ensures
        exists|a: int, b: int| 0 <= a <= b <= s.len() && #[trigger] s.subrange(a, b) == traverse(s, moves).1,
        (traverse(s, moves).0 + traverse(s, moves).1).to_multiset() == s.to_multiset(),
    decreases moves.len(),
{
    if moves.len() == 0 {
        assert(s.subrange(0, s.len() as int) =~= s);
        assert(Seq::<T>::empty() + s =~= s);
    } else {
        let step = if moves[0] {
            taken_front(s)
        } else {
            popped(s)
        };
        let t = step.1;
        let rest = traverse(t, moves.drop_first());
        lemma_traverse_hands_out_each_once(t, moves.drop_first());
        let (a, b) = choose|a: int, b: int|
            0 <= a <= b <= t.len() && #[trigger] t.subrange(a, b) == rest.1;
        match step.0 {
            Some(x) => {
                let y = rest.0;
                let r = rest.1;
                assert(seq![x] + y + r =~= seq![x] + (y + r));
                lemma_multiset_commutative(seq![x], y + r);
                if moves[0] {
                    assert(s =~= seq![x] + t);
                    lemma_multiset_commutative(seq![x], t);
                    assert(s.subrange(a + 1, b + 1) =~= t.subrange(a, b));
                } else {
                    assert(s =~= t + seq![x]);
                    lemma_multiset_commutative(t, seq![x]);
                    assert(s.subrange(a, b) =~= t.subrange(a, b));
                    assert(s.to_multiset() =~= (seq![x] + y + r).to_multiset());
                }
            },
            None => {
                assert(s.subrange(a, b) =~= t.subrange(a, b));
            },
        }
    }
}

/// Inserting `v` at `i` puts `v` at `i`, moves the element that was at `i`
/// to `i + 1`, and adds exactly one element.
pub proof fn lemma_insert_then_read<T>(s: Seq<T>, i: int, v: T)
    requires
        0 <= i <= s.len(),
    ensures
        s.insert(i, v)[i] == v,
        s.insert(i, v).len() == s.len() + 1,
        i < s.len() ==> s.insert(i, v)[i + 1] == s[i],
{
}

/// Removing at `i` takes out exactly one element; those before `i` stay,
/// those after it move down by one, in the same order.
pub proof fn lemma_remove_shifts<T>(s: Seq<T>, i: int)
    requires
        0 <= i < s.len(),
    ensures
        s.remove(i).len() == s.len() - 1,
        forall|j: int| 0 <= j < i ==> #[trigger] s.remove(i)[j] == s[j],
        forall|j: int| i <= j < s.len() - 1 ==> #[trigger] s.remove(i)[j] == s[j + 1],
{
}

} // verus!
