use vstd::prelude::*;

verus! {

/// The last `cap` elements of `s`, or all of `s` when it is no longer than `cap`.
pub open spec fn retain_last<T>(s: Seq<T>, cap: nat) -> Seq<T> {
    if s.len() <= cap {
        s
    } else {
        s.subrange(s.len() - cap, s.len() as int)
    }
}

/// The contents of a buffer of capacity `cap` after `vs` has been pushed into
/// it, one element after the other, starting empty: each push appends and then
/// keeps the last `cap` elements, as `CircleBuffer::push` states.
pub open spec fn pushed_view<T>(cap: nat, vs: Seq<T>) -> Seq<T>
    decreases vs.len(),
{
    if vs.len() == 0 {
        Seq::empty()
    } else {
        retain_last(pushed_view(cap, vs.drop_last()).push(vs.last()), cap)
    }
}

/// Keeping the last `cap` elements before appending one changes nothing,
/// once the last `cap` are kept again.
pub proof fn lemma_retain_last_push<T>(s: Seq<T>, x: T, cap: nat)
    requires
        cap >= 1,
    ensures
        retain_last(retain_last(s, cap).push(x), cap) == retain_last(s.push(x), cap),
{
    if s.len() > cap {
        let t = s.subrange(s.len() - cap, s.len() as int);
        assert(retain_last(t.push(x), cap) =~= retain_last(s.push(x), cap));
    }
}

/// After any sequence of pushes, a buffer holds exactly the last `cap`
/// values pushed, oldest first, or all of them when there were no more
/// than `cap`.
pub proof fn lemma_pushes_keep_last<T>(cap: nat, vs: Seq<T>)
    requires
        cap >= 1,
    ensures
        pushed_view(cap, vs) == retain_last(vs, cap),
    decreases vs.len(),
{
    if vs.len() > 0 {
        let prefix = vs.drop_last();
        lemma_pushes_keep_last(cap, prefix);
        lemma_retain_last_push(prefix, vs.last(), cap);
        assert(prefix.push(vs.last()) =~= vs);
    }
}

/// After `n` pushes, a buffer of capacity `cap` holds `min(n, cap)` elements.
pub proof fn lemma_pushed_len<T>(cap: nat, vs: Seq<T>)
    requires
        cap >= 1,
    ensures
        pushed_view(cap, vs).len() == if vs.len() <= cap {
            vs.len()
        } else {
            cap
        },
{
    lemma_pushes_keep_last(cap, vs);
}

/// A buffer is empty exactly when nothing has been pushed into it.
pub proof fn lemma_pushed_empty<T>(cap: nat, vs: Seq<T>)
    requires
        cap >= 1,
    ensures
        (pushed_view(cap, vs).len() == 0) == (vs.len() == 0),
{
    lemma_pushed_len(cap, vs);
}

/// After `cap + k` pushes, the oldest element held is the value pushed
/// `k + 1`-th.
pub proof fn lemma_oldest_after_overflow<T>(cap: nat, vs: Seq<T>, k: nat)
    requires
        cap >= 1,
        vs.len() == cap + k,
    ensures
        pushed_view(cap, vs)[0] == vs[k as int],
{
    lemma_pushes_keep_last(cap, vs);
}

/// Writing `x` at position `i`, as `CircleBuffer::set` does, then reading
/// position `i`, as `CircleBuffer::get` does, gives `x`; every other position
/// reads as before.
pub proof fn lemma_set_then_get<T>(s: Seq<T>, i: int, x: T)
    requires
        0 <= i < s.len(),
    ensures
        s.update(i, x).len() == s.len(),
        s.update(i, x)[i] == x,
        forall|j: int| 0 <= j < s.len() && j != i ==> #[trigger] s.update(i, x)[j] == s[j],
{
}

} // verus!
