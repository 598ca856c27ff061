//! The bookkeeping of a map whose items are worked on in any order: the
//! items are numbered before they are handed out, and the results are
//! put back in the order of their numbers as they come in.

use vstd::prelude::*;

verus! {

/// A value with the place it has in the whole.
#[derive(Debug, PartialEq, Eq)]
pub struct Resul<T> {
    pub value: T,
    pub index: usize,
}

/// Whether no number of `s` is above one that follows it.
pub open spec fn ascending(s: Seq<usize>) -> bool {
    forall|i: int, j: int| 0 <= i < j < s.len() ==> s[i] <= s[j]
}

/// The first place at or after `from` whose number is not below `index`,
/// or the length where every number is below it.
pub open spec fn slot(recvs: Seq<usize>, index: usize, from: int) -> int
    decreases recvs.len() - from,
{
    if from < 0 || from >= recvs.len() {
        recvs.len() as int
    } else if recvs[from] >= index {
        from
    } else {
        slot(recvs, index, from + 1)
    }
}

/// Whether the results are those of a whole of their length: every
/// number is below the length and none occurs twice.
pub open spec fn complete<U>(results: Seq<Resul<U>>) -> bool {
    &&& forall|j: int| 0 <= j < results.len() ==> (#[trigger] results[j]).index < results.len()
    &&& forall|j: int, k: int|
        0 <= j < results.len() && 0 <= k < results.len() && j != k ==> (#[trigger] results[j]).index
            != (#[trigger] results[k]).index
}

/// Numbers the items of `input_vec` by their places and lists them
/// from the last item to the first, the order in which they are handed
/// out.
pub fn number_items<T>(input_vec: Vec<T>) -> (work: Vec<Resul<T>>)
    ensures
        work@.len() == input_vec@.len(),
        forall|k: int|
            0 <= k < work@.len() ==> (#[trigger] work@[k]).index == input_vec@.len() - 1 - k
                && work@[k].value == input_vec@[input_vec@.len() - 1 - k],
{
    let ghost all = input_vec@;
    let mut input_vec = input_vec;
    let mut work: Vec<Resul<T>> = Vec::new();
    while !input_vec.is_empty()
        invariant
            input_vec@.len() + work@.len() == all.len(),
            input_vec@ == all.take(input_vec@.len() as int),
            forall|k: int|
                0 <= k < work@.len() ==> (#[trigger] work@[k]).index == all.len() - 1 - k
                    && work@[k].value == all[all.len() - 1 - k],
        decreases input_vec@.len(),
    {
        let index = input_vec.len() - 1;
        let value = match input_vec.pop() {
            Some(value) => value,
            None => {
                return work;
            },
        };
        work.push(Resul { value, index });
    }
    work
}

/// Puts one result in its place: before the first result with a number
/// that is not below its own.
pub fn place<U>(recvs: &mut Vec<usize>, output_vec: &mut Vec<U>, rec: Resul<U>)
    requires
        old(recvs)@.len() == old(output_vec)@.len(),
    ensures
        final(recvs)@ == old(recvs)@.insert(slot(old(recvs)@, rec.index, 0), rec.index),
        final(output_vec)@ == old(output_vec)@.insert(
            slot(old(recvs)@, rec.index, 0),
            rec.value,
        ),
        0 <= slot(old(recvs)@, rec.index, 0) <= old(recvs)@.len(),
        forall|q: int|
            0 <= q < slot(old(recvs)@, rec.index, 0) ==> old(recvs)@[q] < rec.index,
        slot(old(recvs)@, rec.index, 0) < old(recvs)@.len() ==> old(recvs)@[slot(
            old(recvs)@,
            rec.index,
            0,
        )] >= rec.index,
{
    let mut i: usize = 0;
    while i < recvs.len() && recvs[i] < rec.index
        invariant
            i <= recvs@.len(),
            recvs@ == old(recvs)@,
            slot(recvs@, rec.index, 0) == slot(recvs@, rec.index, i as int),
            forall|q: int| 0 <= q < i ==> recvs@[q] < rec.index,
        decreases recvs@.len() - i,
    {
        i += 1;
    }
    recvs.insert(i, rec.index);
    output_vec.insert(i, rec.value);
}

/// Numbers that ascend without a repeat, are as many as `n` and all
/// below `n`, are the numbers from zero on, each at its own place.
pub proof fn lemma_packed(s: Seq<usize>, p: int)
    requires
        forall|i: int, j: int| 0 <= i < j < s.len() ==> s[i] < s[j],
        forall|i: int| 0 <= i < s.len() ==> s[i] < s.len(),
        0 <= p < s.len(),
    ensures
        s[p] == p,
{
    lemma_at_least_place(s, p);
    lemma_at_most_place(s, p);
}

proof fn lemma_at_least_place(s: Seq<usize>, p: int)
    requires
        forall|i: int, j: int| 0 <= i < j < s.len() ==> s[i] < s[j],
        0 <= p < s.len(),
    ensures
        s[p] >= p,
    decreases p,
{
    if p > 0 {
        lemma_at_least_place(s, p - 1);
    }
}

proof fn lemma_at_most_place(s: Seq<usize>, p: int)
    requires
        forall|i: int, j: int| 0 <= i < j < s.len() ==> s[i] < s[j],
        forall|i: int| 0 <= i < s.len() ==> s[i] < s.len(),
        0 <= p < s.len(),
    ensures
        s[p] <= p,
    decreases s.len() - p,
{
    if p < s.len() - 1 {
        lemma_at_most_place(s, p + 1);
    }
}

/// Puts the results in the order of their numbers, whatever the order
/// in which they came in. Where they are the results of a whole, each
/// value ends at the place that its number names.
pub fn collect_in_order<U>(results: Vec<Resul<U>>) -> (output_vec: Vec<U>)
    ensures
        output_vec@.len() == results@.len(),
        complete(results@) ==> forall|j: int|
            0 <= j < results@.len() ==> output_vec@[(#[trigger] results@[j]).index as int]
                == results@[j].value,
{
    let ghost all = results@;
    let mut results = results;
    let mut recvs: Vec<usize> = Vec::new();
    let mut output_vec: Vec<U> = Vec::new();
    let ghost mut origin: Seq<int> = Seq::empty();
    let ghost n = all.len() as int;
    // The results are taken from the back, so the last to come in is
    // placed first; the places do not depend on that order.
    while !results.is_empty()
        invariant
            n == all.len(),
            results@ == all.take(results@.len() as int),
            recvs@.len() == output_vec@.len(),
            recvs@.len() == origin.len(),
            recvs@.len() + results@.len() == n,
            ascending(recvs@),
            forall|p: int|
                0 <= p < origin.len() ==> results@.len() <= (#[trigger] origin[p]) < n,
            forall|p: int|
                0 <= p < origin.len() ==> recvs@[p] == all[#[trigger] origin[p]].index
                    && output_vec@[p] == all[origin[p]].value,
            forall|p: int, q: int|
                0 <= p < origin.len() && 0 <= q < origin.len() && p != q ==> (#[trigger] origin[p])
                    != (#[trigger] origin[q]),
        decreases results@.len(),
    {
        let ghost j = results@.len() - 1;
        let rec = match results.pop() {
            Some(rec) => rec,
            None => {
                return output_vec;
            },
        };
        assert(rec == all[j]);
        let ghost before_recvs = recvs@;
        let ghost before_out = output_vec@;
        let ghost before_origin = origin;
        let ghost p = slot(recvs@, rec.index, 0);
        place(&mut recvs, &mut output_vec, rec);
        proof {
            origin = before_origin.insert(p, j);
            assert(ascending(recvs@)) by {
                assert forall|a: int, b: int| 0 <= a < b < recvs@.len() implies recvs@[a]
                    <= recvs@[b] by {
                    if a < p && b > p {
                        assert(before_recvs[a] < rec.index);
                        assert(before_recvs[b - 1] >= before_recvs[p]);
                    } else if a < p && b == p {
                        assert(before_recvs[a] < rec.index);
                    } else if a == p {
                        assert(recvs@[b] == before_recvs[b - 1]);
                        assert(before_recvs[b - 1] >= before_recvs[p]);
                    } else if a < p {
                        assert(recvs@[a] == before_recvs[a] && recvs@[b] == before_recvs[b]);
                    } else {
                        assert(recvs@[a] == before_recvs[a - 1] && recvs@[b] == before_recvs[b
                            - 1]);
                    }
                }
            }
            assert forall|q: int| 0 <= q < origin.len() implies recvs@[q] == all[#[trigger] origin[q]].index
                && output_vec@[q] == all[origin[q]].value && j <= origin[q] < n by {
                if q < p {
                    assert(origin[q] == before_origin[q]);
                } else if q > p {
                    assert(origin[q] == before_origin[q - 1]);
                }
            }
            assert forall|a: int, b: int|
                0 <= a < origin.len() && 0 <= b < origin.len() && a != b implies (#[trigger] origin[a])
                != (#[trigger] origin[b]) by {
                let oa = if a < p {
                    before_origin[a]
                } else if a == p {
                    j
                } else {
                    before_origin[a - 1]
                };
                let ob = if b < p {
                    before_origin[b]
                } else if b == p {
                    j
                } else {
                    before_origin[b - 1]
                };
                assert(origin[a] == oa && origin[b] == ob);
            }
        }
    }
    proof {
        if complete(all) {
            assert forall|a: int, b: int| 0 <= a < b < recvs@.len() implies recvs@[a]
                < recvs@[b] by {
                assert(origin[a] != origin[b]);
                assert(all[origin[a]].index != all[origin[b]].index);
            }
            assert forall|a: int| 0 <= a < recvs@.len() implies recvs@[a] < recvs@.len() by {
                assert(recvs@[a] == all[origin[a]].index);
            }
            assert forall|j: int| 0 <= j < all.len() implies output_vec@[(#[trigger] all[j]).index as int]
                == all[j].value by {
                let p = all[j].index as int;
                lemma_packed(recvs@, p);
                if origin[p] != j {
                    assert(all[origin[p]].index != all[j].index);
                }
            }
        }
    }
    output_vec
}

} // verus!
