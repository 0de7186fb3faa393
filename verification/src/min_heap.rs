//! The min-heap: an indexed store in which no node is less than its parent.

use crate::order::{gt, le, lemma_gt_is_not_le, lemma_le_reflexive, total_order};
use crate::random::gen_range;
use crate::store::{
    exchanged, has_node, left_child_of, lemma_exchanged_permutes, node, parent_of, right_child_of, Heap,
};
use crate::text::{decimal, repeat_char, repeated, Printable};
use vstd::prelude::*;
use vstd::string::StrSliceExecFns;

verus! {

/// Every node but the root holds an element that its parent's element is at
/// most.
pub open spec fn heap_ordered<T: Ord>(s: Seq<T>) -> bool {
    forall|i: int| 2 <= i <= s.len() ==> le(node(s, parent_of(i)), #[trigger] node(s, i))
}

/// The state in the middle of an insertion, while the new element stands at
/// node `index`: every node but `index` is in order with its parent, and the
/// children of `index` are in order with the parent of `index`.
pub open spec fn ordered_but_at<T: Ord>(s: Seq<T>, index: int) -> bool {
    &&& forall|i: int|
        2 <= i <= s.len() && i != index ==> le(node(s, parent_of(i)), #[trigger] node(s, i))
    &&& forall|i: int|
        2 <= i <= s.len() && parent_of(i) == index && index >= 2 ==> le(
            node(s, parent_of(index)),
            #[trigger] node(s, i),
        )
}

/// The store after the element of node `index` has moved up: as long as its
/// parent's element is strictly greater, the two are exchanged and the move
/// goes on from the parent. An index that is not that of a node with a parent
/// leaves the store as it is.
pub open spec fn bubbled<T: Ord>(s: Seq<T>, index: int) -> Seq<T>
    decreases index,
{
    if 2 <= index <= s.len() && gt(node(s, parent_of(index)), node(s, index)) {
        bubbled(exchanged(s, parent_of(index), index), parent_of(index))
    } else {
        s
    }
}

/// The store after `value` has been pushed: it becomes the last node and
/// moves up from there.
pub open spec fn pushed<T: Ord>(s: Seq<T>, value: T) -> Seq<T> {
    bubbled(s.push(value), s.len() as int + 1)
}

/// The store after each of `values` has been pushed in turn, the first one
/// first.
pub open spec fn pushed_all<T: Ord>(s: Seq<T>, values: Seq<T>) -> Seq<T>
    decreases values.len(),
{
    if values.len() == 0 {
        s
    } else {
        pushed(pushed_all(s, values.drop_last()), values.last())
    }
}

/// Moving an element up keeps the length and the elements of the store.
pub proof fn lemma_bubbled_permutes<T: Ord>(s: Seq<T>, index: int)
    ensures
        bubbled(s, index).len() == s.len(),
        bubbled(s, index).to_multiset() == s.to_multiset(),
    decreases index,
{
    if 2 <= index <= s.len() && gt(node(s, parent_of(index)), node(s, index)) {
        lemma_exchanged_permutes(s, parent_of(index), index);
        lemma_bubbled_permutes(exchanged(s, parent_of(index), index), parent_of(index));
    }
}

/// Moving the element of node `index` up restores the order of a store that
/// is in order but at that node.
pub proof fn lemma_bubbled_restores_order<T: Ord>(s: Seq<T>, index: int)
    requires
        total_order::<T>(),
        ordered_but_at(s, index),
    ensures
        heap_ordered(bubbled(s, index)),
    decreases index,
{
    if 2 <= index <= s.len() {
        let parent: int = parent_of(index);
        lemma_gt_is_not_le(node(s, parent), node(s, index));
        if gt(node(s, parent), node(s, index)) {
            let t = exchanged(s, parent, index);
            assert forall|i: int| 2 <= i <= t.len() && i != parent implies le(
                node(t, parent_of(i)),
                #[trigger] node(t, i),
            ) by {
                if i == index {
                } else if parent_of(i) == parent {
                    assert(le(node(s, parent), node(s, i)));
                } else if parent_of(i) == index {
                    assert(le(node(s, parent), node(s, i)));
                } else {
                    assert(le(node(s, parent_of(i)), node(s, i)));
                }
            }
            assert forall|i: int|
                2 <= i <= t.len() && parent_of(i) == parent && parent >= 2 implies le(
                node(t, parent_of(parent)),
                #[trigger] node(t, i),
            ) by {
                assert(le(node(s, parent_of(parent)), node(s, parent)));
                if i != index {
                    assert(le(node(s, parent), node(s, i)));
                }
            }
            lemma_bubbled_restores_order(t, parent);
        } else {
            assert forall|i: int| 2 <= i <= s.len() implies le(
                node(s, parent_of(i)),
                #[trigger] node(s, i),
            ) by {
                if i != index {
                    assert(le(node(s, parent_of(i)), node(s, i)));
                }
            }
        }
    } else {
        assert forall|i: int| 2 <= i <= s.len() implies le(
            node(s, parent_of(i)),
            #[trigger] node(s, i),
        ) by {
            assert(i != index);
        }
    }
}

/// Moving an element up in a store that is in order exchanges nothing: the
/// store stays as it is, whichever node the move starts from.
pub proof fn lemma_bubbled_in_order_is_unchanged<T: Ord>(s: Seq<T>, index: int)
    requires
        total_order::<T>(),
        heap_ordered(s),
    ensures
        bubbled(s, index) == s,
{
    if 2 <= index <= s.len() {
        assert(le(node(s, parent_of(index)), node(s, index)));
        lemma_gt_is_not_le(node(s, parent_of(index)), node(s, index));
    }
}

/// Moving the same element up a second time exchanges nothing: after the
/// first move the store is in order.
pub proof fn lemma_bubbled_twice<T: Ord>(s: Seq<T>, index: int, again: int)
    requires
        total_order::<T>(),
        ordered_but_at(s, index),
    ensures
        bubbled(bubbled(s, index), again) == bubbled(s, index),
{
    lemma_bubbled_restores_order(s, index);
    lemma_bubbled_in_order_is_unchanged(bubbled(s, index), again);
}

/// Pushing onto a store that is in order gives a store that is in order, one
/// longer, and holding the new element beside the old ones.
pub proof fn lemma_pushed_keeps_order<T: Ord>(s: Seq<T>, value: T)
    requires
        total_order::<T>(),
        heap_ordered(s),
    ensures
        heap_ordered(pushed(s, value)),
        pushed(s, value).len() == s.len() + 1,
        pushed(s, value).to_multiset() == s.to_multiset().insert(value),
{
    let t = s.push(value);
    let last: int = s.len() as int + 1;
    assert forall|i: int| 2 <= i <= t.len() && i != last implies le(
        node(t, parent_of(i)),
        #[trigger] node(t, i),
    ) by {
        assert(le(node(s, parent_of(i)), node(s, i)));
    }
    lemma_bubbled_restores_order(t, last);
    lemma_pushed_permutes(s, value);
}

/// Pushing makes the store one longer and adds the new element to the old
/// ones, whatever the order of the store was.
pub proof fn lemma_pushed_permutes<T: Ord>(s: Seq<T>, value: T)
    ensures
        pushed(s, value).len() == s.len() + 1,
        pushed(s, value).to_multiset() == s.to_multiset().insert(value),
{
    broadcast use vstd::seq_lib::group_to_multiset_ensures;

    lemma_bubbled_permutes(s.push(value), s.len() as int + 1);
}

/// After any number of pushes onto an empty store, the store is in order,
/// holds as many elements as were pushed, and holds just those.
pub proof fn lemma_pushed_all_is_heap<T: Ord>(values: Seq<T>)
    requires
        total_order::<T>(),
    ensures
        heap_ordered(pushed_all(Seq::<T>::empty(), values)),
        pushed_all(Seq::<T>::empty(), values).len() == values.len(),
        pushed_all(Seq::<T>::empty(), values).to_multiset() == values.to_multiset(),
    decreases values.len(),
{
    broadcast use vstd::seq_lib::group_to_multiset_ensures;

    if values.len() > 0 {
        lemma_pushed_all_is_heap(values.drop_last());
        lemma_pushed_keeps_order(
            pushed_all(Seq::<T>::empty(), values.drop_last()),
            values.last(),
        );
        assert(values.drop_last().push(values.last()) == values);
    }
}

/// In a store that is in order the root holds a least element: it is at most
/// the element of every node.
pub proof fn lemma_root_is_least<T: Ord>(s: Seq<T>, index: int)
    requires
        total_order::<T>(),
        heap_ordered(s),
        1 <= index <= s.len(),
    ensures
        le(node(s, 1), node(s, index)),
    decreases index,
{
    if index == 1 {
        lemma_le_reflexive(node(s, 1));
    } else {
        lemma_root_is_least(s, parent_of(index));
        assert(le(node(s, parent_of(index)), node(s, index)));
    }
}

/// A binary min-heap.
pub struct MinHeap<T: Ord> {
    inner: Heap<T>,
}

impl<T: Ord> View for MinHeap<T> {
    type V = Seq<T>;

    /// The elements in the order of their nodes: node `i` is `self@[i - 1]`.
    closed spec fn view(&self) -> Seq<T> {
        self.inner@
    }
}

impl<T: Ord> MinHeap<T> {
    /// An empty heap.
    pub fn new() -> (heap: Self)
        ensures
            heap@ == Seq::<T>::empty(),
            heap_ordered(heap@),
    {
        MinHeap { inner: Heap::new() }
    }

    /// Adds `value` to the heap: it becomes the last node and moves up until
    /// its parent is not greater.
    pub fn push(&mut self, value: T)
        requires
            total_order::<T>(),
        ensures
            final(self)@ == pushed(old(self)@, value),
            final(self)@.len() == old(self)@.len() + 1,
            final(self)@.to_multiset() == old(self)@.to_multiset().insert(value),
            heap_ordered(old(self)@) ==> heap_ordered(final(self)@),
    {
        proof {
            lemma_pushed_permutes(self@, value);
            if heap_ordered(self@) {
                lemma_pushed_keeps_order(self@, value);
            }
        }
        self.inner.push(value);
        let last: usize = self.inner.last_node_index();
        self.bubble_up(last);
    }

    /// Moves the element of node `index` up: as long as its parent's element
    /// is strictly greater, the two are exchanged. Where `index` is not that
    /// of a node with a parent, the heap stays as it is.
    pub fn bubble_up(&mut self, index: usize)
        requires
            total_order::<T>(),
        ensures
            final(self)@ == bubbled(old(self)@, index as int),
            final(self)@.len() == old(self)@.len(),
            final(self)@.to_multiset() == old(self)@.to_multiset(),
            ordered_but_at(old(self)@, index as int) ==> heap_ordered(final(self)@),
            heap_ordered(old(self)@) ==> final(self)@ == old(self)@,
    {
        proof {
            lemma_bubbled_permutes(self@, index as int);
            if ordered_but_at(self@, index as int) {
                lemma_bubbled_restores_order(self@, index as int);
            }
            if heap_ordered(self@) {
                lemma_bubbled_in_order_is_unchanged(self@, index as int);
            }
        }
        let ghost start: usize = index;
        let mut index: usize = index;
        while Heap::<T>::has_parent(index) && index <= self.inner.len()
            invariant
                total_order::<T>(),
                bubbled(self@, index as int) == bubbled(old(self)@, start as int),
            ensures
                self@ == bubbled(old(self)@, start as int),
            decreases index,
        {
            let parent_index: usize = Heap::<T>::parent_index(index);
            let greater = match (self.inner.get(parent_index), self.inner.get(index)) {
                (Some(parent), Some(child)) => *parent > *child,
                _ => false,
            };
            if !greater {
                break ;
            }
            self.inner.swap(parent_index, index);
            index = parent_index;
        }
    }

    /// The padding that brings the decimal numeral of `num` to `width`
    /// characters: as many times `padding` as the numeral falls short of
    /// `width`.
    pub fn to_padded_string(num: usize, width: usize, padding: char) -> (s: String)
        requires
            decimal(num as nat).len() <= width,
        ensures
            s@ == repeated(padding, (width - decimal(num as nat).len()) as nat),
    {
        let written = num.to_text();
        let padded_length: usize = width - written.as_str().unicode_len();
        repeat_char(padding, padded_length)
    }

    /// The number of elements.
    pub fn len(&self) -> (n: usize)
        ensures
            n == self@.len(),
    {
        self.inner.len()
    }

    /// Whether the heap holds no element.
    pub fn is_empty(&self) -> (empty: bool)
        ensures
            empty <==> self@.len() == 0,
    {
        self.inner.is_empty()
    }

    /// The index of the last node, which is the number of elements.
    pub fn last_node_index(&self) -> (index: usize)
        ensures
            index == self@.len(),
    {
        self.inner.last_node_index()
    }

    /// The element of node `index`, or `None` where the heap has no such
    /// node. Node 1 is the root.
    pub fn get(&self, index: usize) -> (element: Option<&T>)
        requires
            index >= 1,
        ensures
            element == if has_node(self@, index as int) {
                Some(&node(self@, index as int))
            } else {
                None
            },
    {
        self.inner.get(index)
    }

    /// The element of the parent of node `index`, or `None` where the heap
    /// has no such node.
    pub fn get_parent(&self, index: usize) -> (element: Option<&T>)
        requires
            parent_of(index as int) >= 1,
        ensures
            element == if has_node(self@, parent_of(index as int)) {
                Some(&node(self@, parent_of(index as int)))
            } else {
                None
            },
    {
        self.inner.get_parent(index)
    }

    /// The element of the left child of node `index`, or `None` where the
    /// heap has no such node.
    pub fn get_left_child(&self, index: usize) -> (element: Option<&T>)
        requires
            index >= 1,
        ensures
            element == if has_node(self@, left_child_of(index as int)) {
                Some(&node(self@, left_child_of(index as int)))
            } else {
                None
            },
    {
        self.inner.get_left_child(index)
    }

    /// The element of the right child of node `index`, or `None` where the
    /// heap has no such node.
    pub fn get_right_child(&self, index: usize) -> (element: Option<&T>)
        requires
            index >= 1,
        ensures
            element == if has_node(self@, right_child_of(index as int)) {
                Some(&node(self@, right_child_of(index as int)))
            } else {
                None
            },
    {
        self.inner.get_right_child(index)
    }

    /// The element of the last node.
    pub fn get_last_node(&self) -> (element: Option<&T>)
        requires
            self@.len() >= 1,
        ensures
            element == Some(&self@.last()),
    {
        self.inner.get_last_node()
    }

    /// The store that holds the elements, for reading.
    pub fn heap(&self) -> (heap: &Heap<T>)
        ensures
            heap@ == self@,
    {
        &self.inner
    }
}

impl<T: Ord + Printable> MinHeap<T> {
    /// The elements in the order of their nodes, in square brackets and with
    /// a comma and a space between them.
    pub fn to_display_string(&self) -> (s: String)
        ensures
            s@ == crate::text::list_text(self@),
    {
        self.inner.to_display_string()
    }
}

impl MinHeap<u32> {
    /// A heap of `count` numbers, each drawn at random from the closed range
    /// from `low` to `high` and pushed in the order in which they were drawn.
    pub fn new_rand(count: usize, low: u32, high: u32) -> (heap: Self)
        requires
            count > 0 ==> low <= high,
        ensures
            heap@.len() == count,
            heap_ordered(heap@),
            forall|i: int| 0 <= i < heap@.len() ==> low <= #[trigger] heap@[i] <= high,
            exists|drawn: Seq<u32>|
                {
                    &&& drawn.len() == count
                    &&& forall|i: int| 0 <= i < drawn.len() ==> low <= #[trigger] drawn[i] <= high
                    &&& heap@ == pushed_all(Seq::<u32>::empty(), drawn)
                },
    {
        let mut rand = rand::thread_rng();
        let mut new_heap = Self::new();
        let ghost mut drawn: Seq<u32> = Seq::empty();
        proof {
            crate::order::lemma_total_order_u32();
        }
        let mut done: usize = 0;
        while done < count
            invariant
                done <= count,
                count > 0 ==> low <= high,
                total_order::<u32>(),
                drawn.len() == done,
                forall|i: int| 0 <= i < drawn.len() ==> low <= #[trigger] drawn[i] <= high,
                new_heap@ == pushed_all(Seq::<u32>::empty(), drawn),
            decreases count - done,
        {
            let value: u32 = gen_range(&mut rand, low, high);
            new_heap.push(value);
            proof {
                assert(drawn.push(value).drop_last() == drawn);
                drawn = drawn.push(value);
            }
            done += 1;
        }
        proof {
            lemma_pushed_all_is_heap(drawn);
            lemma_elements_are_pushed(drawn, low, high);
        }
        new_heap
    }
}

/// After pushes onto an empty store, every element of the store is one of
/// those that were pushed: if they all lie between `low` and `high`, so do
/// the elements of the store.
pub proof fn lemma_elements_are_pushed(values: Seq<u32>, low: u32, high: u32)
    requires
        forall|i: int| 0 <= i < values.len() ==> low <= #[trigger] values[i] <= high,
    ensures
        forall|i: int|
            0 <= i < pushed_all(Seq::<u32>::empty(), values).len() ==> low <= #[trigger] pushed_all(
                Seq::<u32>::empty(),
                values,
            )[i] <= high,
{
    broadcast use vstd::seq_lib::group_to_multiset_ensures;

    crate::order::lemma_total_order_u32();
    lemma_pushed_all_is_heap(values);
    let s = pushed_all(Seq::<u32>::empty(), values);
    assert forall|i: int| 0 <= i < s.len() implies low <= #[trigger] s[i] <= high by {
        assert(s.to_multiset().count(s[i]) > 0);
        assert(values.to_multiset().count(s[i]) > 0);
        assert(values.contains(s[i]));
    }
}

} // verus!
