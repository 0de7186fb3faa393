//! The indexed store: a growable sequence read as a complete binary tree.
//!
//! Nodes are numbered from 1, the root, level by level and left to right, so
//! that the parent of node `i` is node `i / 2` and its children are nodes
//! `2 * i` and `2 * i + 1`. The store itself keeps no order among its
//! elements.

use crate::text::{items_text, list_text, Printable};
use vstd::prelude::*;
use vstd::string::StringExecFns;

verus! {

/// The index of the parent of node `index`.
pub open spec fn parent_of(index: int) -> int {
    index / 2
}

/// The index of the left child of node `index`.
pub open spec fn left_child_of(index: int) -> int {
    2 * index
}

/// The index of the right child of node `index`.
pub open spec fn right_child_of(index: int) -> int {
    left_child_of(index) + 1
}

/// The element of node `index` in the store whose elements are `s`.
pub open spec fn node<T>(s: Seq<T>, index: int) -> T
    recommends
        1 <= index <= s.len(),
{
    s[index - 1]
}

/// Whether `index` is that of a node of the store whose elements are `s`: the
/// nodes are numbered from 1 to the number of elements.
pub open spec fn has_node<T>(s: Seq<T>, index: int) -> bool {
    1 <= index <= s.len()
}

/// `s` with the elements of nodes `a` and `b` exchanged.
pub open spec fn exchanged<T>(s: Seq<T>, a: int, b: int) -> Seq<T>
    recommends
        1 <= a <= s.len(),
        1 <= b <= s.len(),
{
    s.update(a - 1, node(s, b)).update(b - 1, node(s, a))
}

/// Both children of a node have that node as their parent, and the left child
/// comes before the right one.
pub proof fn lemma_children_have_parent(index: int)
    requires
        index >= 1,
    ensures
        parent_of(left_child_of(index)) == index,
        parent_of(right_child_of(index)) == index,
        left_child_of(index) < right_child_of(index),
{
}

/// No store has a node 0, and none has a node beyond its last one, whose
/// index is the number of elements: a read there finds nothing.
pub proof fn lemma_no_node_outside<T>(s: Seq<T>, index: int)
    requires
        index <= 0 || index > s.len(),
    ensures
        !has_node(s, index),
        !has_node(s, 0),
        !has_node(s, s.len() as int + 1),
{
}

/// Exchanging two nodes keeps the length and the elements of the store.
pub proof fn lemma_exchanged_permutes<T>(s: Seq<T>, a: int, b: int)
    requires
        1 <= a <= s.len(),
        1 <= b <= s.len(),
    ensures
        exchanged(s, a, b).len() == s.len(),
        exchanged(s, a, b).to_multiset() == s.to_multiset(),
{
    broadcast use vstd::seq_lib::group_to_multiset_ensures;

    let once = s.update(a - 1, node(s, b));
    assert(once.to_multiset() == s.to_multiset().insert(node(s, b)).remove(node(s, a)));
    assert(once[b - 1] == node(s, b));
    assert(exchanged(s, a, b).to_multiset() == once.to_multiset().insert(node(s, a)).remove(
        node(s, b),
    ));
    assert(exchanged(s, a, b).to_multiset() =~= s.to_multiset());
}

/// A sequence of elements with the positions of a complete binary tree.
pub struct Heap<T> {
    inner: Vec<T>,
}

impl<T> View for Heap<T> {
    type V = Seq<T>;

    /// The elements in the order of their nodes: node `i` is `self@[i - 1]`.
    closed spec fn view(&self) -> Seq<T> {
        self.inner@
    }
}

impl<T> Heap<T> {
    /// An empty store.
    pub fn new() -> (heap: Self)
        ensures
            heap@ == Seq::<T>::empty(),
    {
        Heap { inner: Vec::new() }
    }

    /// The number of elements fits a `usize`.
    pub proof fn lemma_len_fits(&self)
        ensures
            self@.len() <= usize::MAX,
    {
        assert(self.inner.len() == self.inner@.len());
    }

    /// The number of elements.
    pub fn len(&self) -> (n: usize)
        ensures
            n == self@.len(),
    {
        self.inner.len()
    }

    /// Whether the store holds no element.
    pub fn is_empty(&self) -> (empty: bool)
        ensures
            empty <==> self@.len() == 0,
    {
        self.len() == 0
    }

    /// The index of the last node, which is the number of elements: 0 in an
    /// empty store, where no node is the last.
    pub fn last_node_index(&self) -> (index: usize)
        ensures
            index == self@.len(),
    {
        self.len()
    }

    /// The index of the parent of node `index`.
    pub fn parent_index(index: usize) -> (parent: usize)
        ensures
            parent == parent_of(index as int),
    {
        index / 2
    }

    /// The index of the left child of node `index`.
    pub fn left_child_index(index: usize) -> (child: usize)
        requires
            left_child_of(index as int) <= usize::MAX,
        ensures
            child == left_child_of(index as int),
    {
        index * 2
    }

    /// The index of the right child of node `index`.
    pub fn right_child_index(index: usize) -> (child: usize)
        requires
            right_child_of(index as int) <= usize::MAX,
        ensures
            child == right_child_of(index as int),
    {
        Self::left_child_index(index) + 1
    }

    /// Whether node `index` has a parent: every node but the root has one.
    pub fn has_parent(index: usize) -> (has: bool)
        ensures
            has <==> index > 1,
    {
        index > 1
    }

    /// Whether the index of the left child of node `index` is that of a node
    /// of the store.
    pub fn has_left_child(&self, index: usize) -> (has: bool)
        ensures
            has <==> left_child_of(index as int) <= self@.len(),
    {
        index <= self.inner.len() / 2
    }

    /// Whether the index of the right child of node `index` is that of a node
    /// of the store.
    pub fn has_right_child(&self, index: usize) -> (has: bool)
        ensures
            has <==> right_child_of(index as int) <= self@.len(),
    {
        let n = self.inner.len();
        n >= 1 && index <= (n - 1) / 2
    }

    /// The element of node `index`, or `None` where the store has no such
    /// node, as for every index beyond the last node. The nodes are numbered
    /// from 1: to ask for node 0 is an error of the caller, which `requires`
    /// leaves out.
    pub fn get(&self, index: usize) -> (element: Option<&T>)
        requires
            index >= 1,
        ensures
            element == if has_node(self@, index as int) {
                Some(&node(self@, index as int))
            } else {
                None
            },
    {
        if index <= self.inner.len() {
            Some(&self.inner[index - 1])
        } else {
            None
        }
    }

    /// The element of node `index` for writing, or `None` where the store has
    /// no such node. What is written replaces the element of that node; the
    /// other nodes stay as they are.
    pub fn get_mut(&mut self, index: usize) -> (element: Option<&mut T>)
        requires
            index >= 1,
        ensures
            match element {
                Some(slot) => {
                    &&& has_node(old(self)@, index as int)
                    &&& *slot == node(old(self)@, index as int)
                    &&& final(self)@ == old(self)@.update(index - 1, *final(slot))
                },
                None => !has_node(old(self)@, index as int) && final(self)@ == old(self)@,
            },
    {
        if index <= self.inner.len() {
            Some(&mut self.inner[index - 1])
        } else {
            None
        }
    }

    /// The element of the parent of node `index`, or `None` where the store
    /// has no such node.
    pub fn get_parent(&self, index: usize) -> (element: Option<&T>)
        requires
            parent_of(index as int) >= 1,
        ensures
            element == if has_node(self@, parent_of(index as int)) {
                Some(&node(self@, parent_of(index as int)))
            } else {
                None
            },
    {
        self.get(Self::parent_index(index))
    }

    /// The element of the parent of node `index` for writing, or `None` where
    /// the store has no such node.
    pub fn get_parent_mut(&mut self, index: usize) -> (element: Option<&mut T>)
        requires
            parent_of(index as int) >= 1,
        ensures
            match element {
                Some(slot) => {
                    &&& has_node(old(self)@, parent_of(index as int))
                    &&& *slot == node(old(self)@, parent_of(index as int))
                    &&& final(self)@ == old(self)@.update(
                        parent_of(index as int) - 1,
                        *final(slot),
                    )
                },
                None => !has_node(old(self)@, parent_of(index as int)) && final(self)@ == old(self)@,
            },
    {
        self.get_mut(Self::parent_index(index))
    }

    /// The element of the left child of node `index`, or `None` where the
    /// store has no such node.
    pub fn get_left_child(&self, index: usize) -> (element: Option<&T>)
        requires
            index >= 1,
        ensures
            element == if has_node(self@, left_child_of(index as int)) {
                Some(&node(self@, left_child_of(index as int)))
            } else {
                None
            },
    {
        if self.has_left_child(index) {
            proof {
                self.lemma_len_fits();
            }
            self.get(Self::left_child_index(index))
        } else {
            None
        }
    }

    /// The element of the left child of node `index` for writing, or `None`
    /// where the store has no such node.
    pub fn get_left_child_mut(&mut self, index: usize) -> (element: Option<&mut T>)
        requires
            index >= 1,
        ensures
            match element {
                Some(slot) => {
                    &&& has_node(old(self)@, left_child_of(index as int))
                    &&& *slot == node(old(self)@, left_child_of(index as int))
                    &&& final(self)@ == old(self)@.update(
                        left_child_of(index as int) - 1,
                        *final(slot),
                    )
                },
                None => !has_node(old(self)@, left_child_of(index as int)) && final(self)@ == old(self)@,
            },
    {
        if self.has_left_child(index) {
            proof {
                self.lemma_len_fits();
            }
            self.get_mut(Self::left_child_index(index))
        } else {
            None
        }
    }

    /// The element of the right child of node `index`, or `None` where the
    /// store has no such node.
    pub fn get_right_child(&self, index: usize) -> (element: Option<&T>)
        requires
            index >= 1,
        ensures
            element == if has_node(self@, right_child_of(index as int)) {
                Some(&node(self@, right_child_of(index as int)))
            } else {
                None
            },
    {
        if self.has_right_child(index) {
            proof {
                self.lemma_len_fits();
            }
            self.get(Self::right_child_index(index))
        } else {
            None
        }
    }

    /// The element of the right child of node `index` for writing, or `None`
    /// where the store has no such node.
    pub fn get_right_child_mut(&mut self, index: usize) -> (element: Option<&mut T>)
        requires
            index >= 1,
        ensures
            match element {
                Some(slot) => {
                    &&& has_node(old(self)@, right_child_of(index as int))
                    &&& *slot == node(old(self)@, right_child_of(index as int))
                    &&& final(self)@ == old(self)@.update(
                        right_child_of(index as int) - 1,
                        *final(slot),
                    )
                },
                None => !has_node(old(self)@, right_child_of(index as int)) && final(self)@ == old(self)@,
            },
    {
        if self.has_right_child(index) {
            proof {
                self.lemma_len_fits();
            }
            self.get_mut(Self::right_child_index(index))
        } else {
            None
        }
    }

    /// The element of the last node: the one that was added last.
    pub fn get_last_node(&self) -> (element: Option<&T>)
        requires
            self@.len() >= 1,
        ensures
            element == Some(&self@.last()),
    {
        self.get(self.last_node_index())
    }

    /// The element of the last node for writing.
    pub fn get_last_node_mut(&mut self) -> (element: Option<&mut T>)
        requires
            old(self)@.len() >= 1,
        ensures
            match element {
                Some(slot) => {
                    &&& *slot == old(self)@.last()
                    &&& final(self)@ == old(self)@.update(old(self)@.len() - 1, *final(slot))
                },
                None => false,
            },
    {
        let index: usize = self.last_node_index();
        self.get_mut(index)
    }

    /// Adds `value` as the new last node.
    pub fn push(&mut self, value: T)
        ensures
            final(self)@ == old(self)@.push(value),
    {
        self.inner.push(value);
    }

    /// Removes the last node and returns its element, or returns `None` and
    /// leaves the store as it is where it is empty.
    pub fn take(&mut self) -> (last: Option<T>)
        ensures
            old(self)@.len() > 0 ==> last == Some(old(self)@.last()) && final(self)@ == old(
                self,
            )@.drop_last(),
            old(self)@.len() == 0 ==> last is None && final(self)@ == old(self)@,
    {
        self.inner.pop()
    }

    /// Exchanges the elements of nodes `a` and `b`.
    pub fn swap(&mut self, a: usize, b: usize)
        requires
            1 <= a <= old(self)@.len(),
            1 <= b <= old(self)@.len(),
        ensures
            final(self)@ == exchanged(old(self)@, a as int, b as int),
    {
        if a != b {
            let (low, high) = if a < b {
                (a, b)
            } else {
                (b, a)
            };
            let (front, back) = self.inner.as_mut_slice().split_at_mut(high - 1);
            core::mem::swap(&mut front[low - 1], &mut back[0]);
        }
    }
}

impl<T: Printable> Heap<T> {
    /// The elements in the order of their nodes, in square brackets and with
    /// a comma and a space between them.
    pub fn to_display_string(&self) -> (s: String)
        ensures
            s@ == list_text(self@),
    {
        let mut s = String::new();
        s.push('[');
        let count: usize = self.inner.len();
        let mut index: usize = 0;
        while index < count
            invariant
                index <= count,
                count == self.inner@.len(),
                s@ == seq!['['] + items_text(self.inner@.take(index as int)),
            decreases count - index,
        {
            if index > 0 {
                s.push(',');
                s.push(' ');
            }
            let written = self.inner[index].to_text();
            s.append(written.as_str());
            index += 1;
            proof {
                let now = self.inner@.take(index as int);
                assert(now.drop_last() == self.inner@.take(index - 1));
                assert(now.last() == self.inner@[index - 1]);
                assert(s@ =~= seq!['['] + items_text(now));
            }
        }
        assert(self.inner@.take(count as int) == self.inner@);
        s.push(']');
        s
    }
}

} // verus!
