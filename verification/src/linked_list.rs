//! A singly linked list with a cached length.
//!
//! The list is modelled by the sequence of its values, front first.

use vstd::prelude::*;
use vstd::std_specs::cmp::{PartialEqSpec, PartialEqSpecImpl};

verus! {

pub struct LinkedList<T> {
    head: Option<Box<Node<T>>>,
    size: usize,
}

/// One link of the list: a value and the rest of the list behind it.
pub struct Node<T> {
    pub value: T,
    pub next: Option<Box<Node<T>>>,
}

/// The values reachable from `link`, in link order.
spec fn chain<T>(link: Option<Box<Node<T>>>) -> Seq<T>
    decreases link,
{
    match link {
        None => Seq::empty(),
        Some(node) => seq![node.value] + chain(node.next),
    }
}

impl<T> Node<T> {
    pub fn new(value: T, next: Option<Box<Node<T>>>) -> (node: Node<T>)
        ensures
            node.value == value,
            node.next == next,
    {
        Node { value: value, next: next }
    }
}

impl<T> View for LinkedList<T> {
    type V = Seq<T>;

    closed spec fn view(&self) -> Seq<T> {
        chain(self.head)
    }
}

impl<T> LinkedList<T> {
    #[verifier::type_invariant]
    spec fn cached_length_is_exact(self) -> bool {
        self.size == chain(self.head).len()
    }

    pub fn new() -> (list: LinkedList<T>)
        ensures
            list@ == Seq::<T>::empty(),
    {
        LinkedList { head: None, size: 0 }
    }

    pub fn get_size(&self) -> (size: usize)
        ensures
            size == self@.len(),
    {
        proof {
            use_type_invariant(self);
        }
        self.size
    }

    pub fn is_empty(&self) -> (empty: bool)
        ensures
            empty == (self@.len() == 0),
    {
        self.get_size() == 0
    }

    /// Puts `value` in front of all present values.
    pub fn push_front(&mut self, value: T)
        requires
            old(self)@.len() < usize::MAX,
        ensures
            final(self)@ == seq![value] + old(self)@,
    {
        let mut taken = LinkedList::new();
        core::mem::swap(self, &mut taken);
        proof {
            use_type_invariant(&taken);
        }
        let LinkedList { head, size } = taken;
        let new_node: Box<Node<T>> = Box::new(Node::new(value, head));
        *self = LinkedList { head: Some(new_node), size: size + 1 };
    }

    /// Takes the front value out, if there is one.
    pub fn pop_front(&mut self) -> (front: Option<T>)
        ensures
            old(self)@.len() == 0 ==> front is None && final(self)@ == old(self)@,
            old(self)@.len() > 0 ==> front == Some(old(self)@[0]) && final(self)@ == old(self)@.drop_first(),
    {
        let mut taken = LinkedList::new();
        core::mem::swap(self, &mut taken);
        proof {
            use_type_invariant(&taken);
        }
        let LinkedList { head, size } = taken;
        match head {
            None => None,
            Some(node) => {
                let Node { value, next } = *node;
                assert((seq![value] + chain(next)).drop_first() =~= chain(next));
                *self = LinkedList { head: next, size: size - 1 };
                Some(value)
            },
        }
    }
}

/// Whether the values of `a` and `b` are equal one by one, as the
/// values' own `==` has it.
pub open spec fn same_values<T: PartialEqSpec>(a: Seq<T>, b: Seq<T>) -> bool {
    a.len() == b.len() && forall|i: int| 0 <= i < a.len() ==> (#[trigger] a[i]).eq_spec(&b[i])
}

/// What the values of `values` look like in a row, each with one space
/// in front of it.
pub open spec fn spaced(values: Seq<String>) -> Seq<char>
    decreases values.len(),
{
    if values.len() == 0 {
        Seq::empty()
    } else {
        spaced(values.drop_last()) + " "@ + values.last()@
    }
}

impl<T: Clone> Clone for LinkedList<T> {
    /// A list of clones of the values, in the same order.
    fn clone(&self) -> (copy: Self)
        ensures
            copy@.len() == self@.len(),
            forall|i: int| 0 <= i < self@.len() ==> cloned::<T>(#[trigger] self@[i], copy@[i]),
    {
        proof {
            use_type_invariant(self);
        }
        let mut new_list: LinkedList<T> = LinkedList::new();
        let mut new_list2: LinkedList<T> = LinkedList::new();
        let mut current: &Option<Box<Node<T>>> = &self.head;
        let ghost mut seen: int = 0;
        loop
            invariant
                0 <= seen <= self@.len(),
                self@.len() <= usize::MAX,
                chain(*current) == self@.skip(seen),
                new_list2@.len() == seen,
                forall|i: int|
                    0 <= i < seen ==> cloned::<T>(#[trigger] self@[i], new_list2@[seen - 1 - i]),
            ensures
                new_list2@.len() == self@.len(),
                forall|i: int|
                    0 <= i < self@.len() ==> cloned::<T>(
                        #[trigger] self@[i],
                        new_list2@[self@.len() - 1 - i],
                    ),
            decreases self@.len() - seen,
        {
            match current {
                Some(node) => {
                    assert(self@.skip(seen).len() > 0);
                    assert(self@.skip(seen)[0] == self@[seen]);
                    assert(chain(node.next) =~= self@.skip(seen + 1)) by {
                        assert(chain(*current) == seq![node.value] + chain(node.next));
                        assert(self@.skip(seen).drop_first() =~= self@.skip(seen + 1));
                        assert((seq![node.value] + chain(node.next)).drop_first() =~= chain(
                            node.next,
                        ));
                    }
                    let ghost before = new_list2@;
                    new_list2.push_front(node.value.clone());
                    assert forall|i: int| 0 <= i < seen + 1 implies cloned::<T>(
                        #[trigger] self@[i],
                        new_list2@[seen - i],
                    ) by {
                        if i < seen {
                            assert(new_list2@[seen - i] == before[seen - 1 - i]);
                        }
                    }
                    current = &node.next;
                    proof {
                        seen = seen + 1;
                    }
                },
                None => {
                    assert(self@.skip(seen).len() == 0);
                    break ;
                },
            }
        }
        let ghost total = self@.len() as int;
        let ghost reversed = new_list2@;
        let mut t = new_list2.pop_front();
        let ghost mut moved: int = 0;
        loop
            invariant
                0 <= moved <= total,
                total == self@.len(),
                total <= usize::MAX,
                reversed.len() == total,
                new_list@.len() == moved,
                t is Some ==> moved < total && t == Some(reversed[moved]) && new_list2@
                    == reversed.skip(moved + 1),
                t is None ==> moved == total,
                forall|i: int| 0 <= i < moved ==> #[trigger] new_list@[i] == reversed[moved - 1 - i],
            ensures
                new_list@.len() == total,
                forall|i: int| 0 <= i < total ==> #[trigger] new_list@[i] == reversed[total - 1 - i],
            decreases total - moved,
        {
            match t {
                Some(val) => {
                    let ghost before = new_list@;
                    new_list.push_front(val);
                    assert forall|i: int| 0 <= i < moved + 1 implies #[trigger] new_list@[i]
                        == reversed[moved - i] by {
                        if i > 0 {
                            assert(new_list@[i] == before[i - 1]);
                        }
                    }
                    let ghost rest = new_list2@;
                    t = new_list2.pop_front();
                    proof {
                        moved = moved + 1;
                        if rest.len() > 0 {
                            assert(rest[0] == reversed[moved]);
                            assert(rest.drop_first() =~= reversed.skip(moved + 1));
                        }
                    }
                },
                None => {
                    break ;
                },
            }
        }
        assert forall|i: int| 0 <= i < self@.len() implies cloned::<T>(
            #[trigger] self@[i],
            new_list@[i],
        ) by {
            assert(new_list@[i] == reversed[total - 1 - i]);
        }
        new_list
    }
}

impl<T: PartialEq> PartialEq for LinkedList<T> {
    /// Whether the two lists are as long as each other and hold equal
    /// values at each place.
    fn eq(&self, other: &Self) -> (equal: bool) {
        let mut current1: &Option<Box<Node<T>>> = &self.head;
        let mut current2: &Option<Box<Node<T>>> = &other.head;
        let ghost mut seen: int = 0;
        loop
            invariant
                0 <= seen <= self@.len(),
                seen <= other@.len(),
                chain(*current1) == self@.skip(seen),
                chain(*current2) == other@.skip(seen),
                T::obeys_eq_spec() ==> forall|i: int|
                    0 <= i < seen ==> (#[trigger] self@[i]).eq_spec(&other@[i]),
            decreases self@.len() - seen,
        {
            match (current1, current2) {
                (Some(node1), Some(node2)) => {
                    assert(self@.skip(seen).len() > 0 && other@.skip(seen).len() > 0);
                    assert(self@.skip(seen)[0] == self@[seen]);
                    assert(other@.skip(seen)[0] == other@[seen]);
                    assert(chain(node1.next) =~= self@.skip(seen + 1)) by {
                        assert(self@.skip(seen).drop_first() =~= self@.skip(seen + 1));
                        assert((seq![node1.value] + chain(node1.next)).drop_first() =~= chain(
                            node1.next,
                        ));
                    }
                    assert(chain(node2.next) =~= other@.skip(seen + 1)) by {
                        assert(other@.skip(seen).drop_first() =~= other@.skip(seen + 1));
                        assert((seq![node2.value] + chain(node2.next)).drop_first() =~= chain(
                            node2.next,
                        ));
                    }
                    if node1.value != node2.value {
                        return false;
                    }
                    current1 = &node1.next;
                    current2 = &node2.next;
                    proof {
                        seen = seen + 1;
                    }
                },
                (None, None) => {
                    assert(self@.skip(seen).len() == 0 && other@.skip(seen).len() == 0);
                    return true;
                },
                _ => {
                    assert(self@.skip(seen).len() != other@.skip(seen).len());
                    return false;
                },
            }
        }
    }
}

impl<T: PartialEq> PartialEqSpecImpl for LinkedList<T> {
    open spec fn obeys_eq_spec() -> bool {
        T::obeys_eq_spec()
    }

    open spec fn eq_spec(&self, other: &LinkedList<T>) -> bool {
        same_values(self@, other@)
    }
}

impl LinkedList<String> {
    /// The values in a row, front first, each with one space in front of
    /// it.
    pub fn to_string(&self) -> (text: String)
        ensures
            text@ == spaced(self@),
    {
        let mut current: &Option<Box<Node<String>>> = &self.head;
        let mut result = String::new();
        let ghost mut seen: int = 0;
        assert(self@.take(0) =~= Seq::<String>::empty());
        loop
            invariant
                0 <= seen <= self@.len(),
                chain(*current) == self@.skip(seen),
                result@ == spaced(self@.take(seen)),
            ensures
                result@ == spaced(self@),
            decreases self@.len() - seen,
        {
            match current {
                Some(node) => {
                    assert(self@.skip(seen).len() > 0);
                    assert(self@.skip(seen)[0] == self@[seen]);
                    assert(chain(node.next) =~= self@.skip(seen + 1)) by {
                        assert(self@.skip(seen).drop_first() =~= self@.skip(seen + 1));
                        assert((seq![node.value] + chain(node.next)).drop_first() =~= chain(
                            node.next,
                        ));
                    }
                    result.append(" ");
                    result.append(node.value.as_str());
                    proof {
                        assert(self@.take(seen + 1).drop_last() =~= self@.take(seen));
                        assert(self@.take(seen + 1).last() == self@[seen]);
                        seen = seen + 1;
                    }
                    current = &node.next;
                },
                None => {
                    assert(self@.skip(seen).len() == 0);
                    assert(self@.take(seen) =~= self@);
                    break ;
                },
            }
        }
        result
    }
}

} // verus!
