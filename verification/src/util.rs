use vstd::prelude::*;

verus! {

/// Swaps two elements of a slice.
/// Std documents that `swap` exchanges the elements at the two indices and
/// panics when either index is out of bounds, so both must be in bounds.
pub assume_specification<Elem>[ <[Elem]>::swap ](slice: &mut [Elem], a: usize, b: usize)
    requires
        a < old(slice)@.len(),
        b < old(slice)@.len(),
    ensures
        final(slice)@ == old(slice)@.update(a as int, old(slice)@[b as int]).update(
            b as int,
            old(slice)@[a as int],
        ),
;

/// Replacing one element of a sequence removes the old element from its
/// multiset and adds the new one.
proof fn lemma_update_multiset<T>(s: Seq<T>, i: int, v: T)
    requires
        0 <= i < s.len(),
    ensures
        s.update(i, v).to_multiset() =~= s.to_multiset().remove(s[i]).insert(v),
{
    broadcast use vstd::seq_lib::group_to_multiset_ensures;

    let t = s.update(i, v);
    assert(t.remove(i) =~= s.remove(i));
    assert(t.contains(v)) by {
        assert(t[i] == v);
    }
    assert(s.contains(s[i]));
}

/// Exchanging two elements of a sequence leaves its multiset unchanged.
proof fn lemma_swap_multiset<T>(s: Seq<T>, a: int, b: int)
    requires
        0 <= a < s.len(),
        0 <= b < s.len(),
    ensures
        s.update(a, s[b]).update(b, s[a]).to_multiset() =~= s.to_multiset(),
{
    broadcast use vstd::seq_lib::group_to_multiset_ensures;

    let t = s.update(a, s[b]);
    lemma_update_multiset(s, a, s[b]);
    lemma_update_multiset(t, b, s[a]);
    if a == b {
        assert(t.update(b, s[a]) =~= s);
    } else {
        assert(t[b] == s[b]);
        assert(s.contains(s[a]));
        assert(s.contains(s[b]));
    }
}

/// Rearranges elements in the slice into two parts such that `pred` returns
/// `true` for each element in the first part and `false` for each element in
/// the second. Returns the two parts.
///
/// The two parts together hold exactly the elements of the slice, and the
/// slice afterwards is the first part followed by the second.
pub fn partition_by<'a, T, F>(slice: &'a mut [T], pred: F) -> (parts: (&'a mut [T], &'a mut [T])) where
    F: Fn(&T) -> bool,

    requires
        forall|x: &T| #[trigger] pred.requires((x,)),
        forall|x: &T, r1: bool, r2: bool|
            #[trigger] pred.ensures((x,), r1) && #[trigger] pred.ensures((x,), r2) ==> r1 == r2,
    ensures
        (parts.0@ + parts.1@).to_multiset() == old(slice)@.to_multiset(),
        forall|i: int| 0 <= i < parts.0@.len() ==> pred.ensures((&parts.0@[i],), true),
        forall|i: int| 0 <= i < parts.1@.len() ==> pred.ensures((&parts.1@[i],), false),
        final(slice)@ == final(parts.0)@ + final(parts.1)@,
{
    if slice.len() == 0 {
        let parts = slice.split_at_mut(0);
        assert(parts.0@ + parts.1@ =~= old(slice)@);
        return parts;
    }
    let ghost orig = slice@;
    let mut left: usize = 0;
    let mut right: usize = slice.len() - 1;
    // Set when the element at `left` is known to satisfy `pred` and the one
    // at `right` is known not to, which guarantees progress next round.
    let ghost mut primed = false;

    while left != right
        invariant
            left <= right < slice@.len(),
            slice@.to_multiset() == orig.to_multiset(),
            forall|x: &T| #[trigger] pred.requires((x,)),
            forall|x: &T, r1: bool, r2: bool|
                #[trigger] pred.ensures((x,), r1) && #[trigger] pred.ensures((x,), r2) ==> r1
                    == r2,
            forall|i: int| 0 <= i < left ==> pred.ensures((&slice@[i],), true),
            forall|i: int| right < i < slice@.len() ==> pred.ensures((&slice@[i],), false),
            primed ==> left < right && pred.ensures((&slice@[left as int],), true),
        decreases 2 * (right - left) + if primed { 0int } else { 1int },
    {
        let ghost start_left = left;
        let ghost start_right = right;
        loop
            invariant_except_break
                start_left <= left <= right,
            invariant
                left <= right < slice@.len(),
                right == start_right,
                forall|x: &T| #[trigger] pred.requires((x,)),
                forall|x: &T, r1: bool, r2: bool|
                    #[trigger] pred.ensures((x,), r1) && #[trigger] pred.ensures((x,), r2) ==> r1
                        == r2,
                forall|i: int| 0 <= i < left ==> pred.ensures((&slice@[i],), true),
                primed ==> start_left < right && pred.ensures((&slice@[start_left as int],), true),
            ensures
                left <= right,
                left < right ==> pred.ensures((&slice@[left as int],), false),
                primed ==> start_left < left,
            decreases right - left,
        {
            if left >= right {
                break;
            }
            let b = pred(&slice[left]);
            if !b {
                break;
            }
            left += 1;
        }
        loop
            invariant
                left <= right < slice@.len(),
                right <= start_right,
                forall|x: &T| #[trigger] pred.requires((x,)),
                forall|i: int| right < i < slice@.len() ==> pred.ensures((&slice@[i],), false),
            ensures
                left < right ==> pred.ensures((&slice@[right as int],), true),
            decreases right - left,
        {
            if right <= left {
                break;
            }
            let b = pred(&slice[right]);
            if b {
                break;
            }
            right -= 1;
        }
        let ghost before = slice@;
        proof {
            lemma_swap_multiset(slice@, left as int, right as int);
        }
        slice.swap(left, right);
        proof {
            assert(left < right ==> slice@[left as int] == before[right as int]);
            assert(forall|i: int| 0 <= i < left ==> slice@[i] == before[i]);
            assert(forall|i: int| right < i < slice@.len() ==> slice@[i] == before[i]);
            assert(left < right ==> slice@[right as int] == before[left as int]);
            primed = left < right;
        }
    }
    let mid = if pred(&slice[left]) {
        left + 1
    } else {
        left
    };
    let ghost before = slice@;
    let parts = slice.split_at_mut(mid);
    assert(parts.0@ + parts.1@ =~= before);
    parts
}

} // verus!
