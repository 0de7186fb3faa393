//! The tree printer: a min-heap that can draw itself level by level.
//!
//! The drawing has one line for each level of the tree. Each element stands
//! in a field as wide as the longest element that the printer has seen,
//! filled with zeros on the left, and the fields of a level are set apart by
//! blocks of spaces that are wider the higher the level is, so that a node
//! stands above its descendants.

use crate::min_heap::{heap_ordered, pushed, pushed_all, MinHeap};
use crate::order::total_order;
use crate::store::{has_node, node};
use crate::text::{
    decimal, lemma_decimal_len_grows, lemma_repeated_spaces, push_repeated, repeat_char,
    repeat_text, repeated, spaces, Printable,
};
use vstd::arithmetic::power2::{is_pow2, lemma2_to64, lemma_pow2_unfold, pow2};
use vstd::prelude::*;
use vstd::std_specs::bits::{axiom_u64_leading_zeros, u64_leading_zeros};
use vstd::string::{StrSliceExecFns, StringExecFns};

verus! {

/// The number of nodes in the widest level of a complete tree of `count`
/// nodes: the largest power of two that is at most `count`.
pub open spec fn largest_row_size(count: nat) -> nat
    decreases count,
{
    if count < 2 {
        1
    } else {
        2 * largest_row_size(count / 2)
    }
}

/// The text of `value` in a field of `width` characters: flush right, with
/// zeros before it. A minus sign at the head of the text stays at the head of
/// the field, and the zeros stand between it and the rest. A text as long as
/// the field or longer is written out as it is.
pub open spec fn cell<T: Printable>(value: T, width: nat) -> Seq<char> {
    let written = value.text();
    let fill = repeated('0', (width - written.len()) as nat);
    if written.len() >= width {
        written
    } else if written.len() > 0 && written[0] == '-' {
        seq!['-'] + fill + written.subrange(1, written.len() as int)
    } else {
        fill + written
    }
}

/// The line of the nodes `first` to `last`: before each element stands
/// `padding`; after each but the last stand `padding` and `unit`; after the
/// last stands the line break. Where `first` is beyond `last`, the line holds
/// node `last` alone.
pub open spec fn row_text<T: Printable>(
    s: Seq<T>,
    width: nat,
    padding: Seq<char>,
    unit: Seq<char>,
    first: int,
    last: int,
) -> Seq<char>
    decreases last - first,
{
    if first < last {
        padding + cell(node(s, first), width) + padding + unit + row_text(
            s,
            width,
            padding,
            unit,
            first + 1,
            last,
        )
    } else {
        padding + cell(node(s, last), width) + seq!['\n']
    }
}

/// The index of the last node of the level that starts at node `first`, in a
/// tree of `count` nodes: the level has `first` places, of which the lowest
/// level may fill only some.
pub open spec fn row_end(count: nat, first: int) -> int {
    if 2 * first - 1 < count {
        2 * first - 1
    } else {
        count as int
    }
}

/// The lines of the level that starts at node `first` and of the levels below
/// it. In a level of `first` places the padding is a block of
/// `width * (widest / first - 1)` spaces, and the unit a block of `width`
/// spaces.
pub open spec fn rows_text<T: Printable>(s: Seq<T>, width: nat, widest: nat, first: int) -> Seq<
    char,
>
    decreases s.len() - first,
{
    if 1 <= first <= s.len() {
        let row = row_text(
            s,
            width,
            spaces((width * (widest / (first as nat) - 1)) as nat),
            spaces(width),
            first,
            row_end(s.len(), first),
        );
        if 2 * first <= s.len() {
            row + rows_text(s, width, widest, 2 * first)
        } else {
            row
        }
    } else {
        Seq::<char>::empty()
    }
}

/// The drawing of the tree whose elements are `s`, in fields of `width`
/// characters: the lines of all its levels, from the root down.
pub open spec fn tree_text<T: Printable>(s: Seq<T>, width: nat) -> Seq<char> {
    rows_text(s, width, largest_row_size(s.len()), 1)
}

/// The size of the widest level is a power of two, and the largest that is at
/// most the number of nodes.
pub proof fn lemma_largest_row_size(count: nat)
    requires
        count >= 1,
    ensures
        is_pow2(largest_row_size(count) as int),
        largest_row_size(count) <= count < 2 * largest_row_size(count),
    decreases count,
{
    reveal(is_pow2);
    if count >= 2 {
        lemma_largest_row_size(count / 2);
    }
}

/// The size of the widest level is two to the power of the index of the
/// highest bit that is set in the number of nodes.
proof fn lemma_largest_row_size_is_top_bit(count: u64)
    requires
        count >= 1,
    ensures
        0 <= u64_leading_zeros(count) <= 63,
        largest_row_size(count as nat) == pow2((63 - u64_leading_zeros(count)) as nat),
    decreases count,
{
    reveal(u64_leading_zeros);
    axiom_u64_leading_zeros(count);
    axiom_u64_leading_zeros(count / 2);
    lemma2_to64();
    if count >= 2 {
        lemma_largest_row_size_is_top_bit(count / 2);
        lemma_pow2_unfold((63 - u64_leading_zeros(count)) as nat);
    } else {
        assert(count / 2 == 0);
    }
}

/// In a tree of `count` nodes, the widest level is `first` times as wide as
/// the widest level of a tree of `count / first` nodes, where `first` starts
/// a level and so does `2 * first`.
proof fn lemma_largest_row_size_halves(count: nat, first: nat)
    requires
        first >= 1,
        2 * first <= count,
    ensures
        largest_row_size(count / first) == 2 * largest_row_size(count / (2 * first)),
{
    assert(count / first >= 2) by (nonlinear_arith)
        requires
            first >= 1,
            2 * first <= count,
    ;
    assert((count / first) / 2 == count / (2 * first)) by {
        vstd::arithmetic::div_mod::lemma_div_denominator(count as int, first as int, 2);
        assert(first * 2 == 2 * first);
    }
}

/// A min-heap that can draw itself as a tree.
pub struct HeapPrinter<T: Ord + Printable> {
    inner: MinHeap<T>,
    max_node_length: usize,
}

impl<T: Ord + Printable> View for HeapPrinter<T> {
    type V = Seq<T>;

    /// The elements in the order of their nodes: node `i` is `self@[i - 1]`.
    closed spec fn view(&self) -> Seq<T> {
        self.inner@
    }
}

impl<T: Ord + Printable> HeapPrinter<T> {
    /// The width of the field in which each element is drawn.
    pub closed spec fn width(&self) -> nat {
        self.max_node_length as nat
    }

    /// No element is longer than the field: all fields of the drawing are
    /// `width` characters wide.
    pub open spec fn fits(&self) -> bool {
        forall|i: int| 0 <= i < self@.len() ==> (#[trigger] self@[i]).text().len() <= self.width()
    }

    /// A printer with an empty heap and a field of no width.
    pub fn new() -> (printer: Self)
        ensures
            printer@ == Seq::<T>::empty(),
            printer.width() == 0,
            heap_ordered(printer@),
            printer.fits(),
    {
        Self { inner: MinHeap::new(), max_node_length: 0 }
    }

    /// Adds `value` to the heap, and widens the field to the length of
    /// `value` where that is longer.
    pub fn push(&mut self, value: T)
        requires
            total_order::<T>(),
        ensures
            final(self)@ == pushed(old(self)@, value),
            final(self)@.len() == old(self)@.len() + 1,
            final(self)@.to_multiset() == old(self)@.to_multiset().insert(value),
            heap_ordered(old(self)@) ==> heap_ordered(final(self)@),
            final(self).width() == if value.text().len() > old(self).width() {
                value.text().len()
            } else {
                old(self).width()
            },
            old(self).fits() ==> final(self).fits(),
    {
        let written = value.to_text();
        let length: usize = written.as_str().unicode_len();
        if length > self.max_node_length {
            self.max_node_length = length;
        }
        self.inner.push(value);
        proof {
            if old(self).fits() {
                let before = old(self)@;
                let after = self@;
                assert forall|i: int| 0 <= i < after.len() implies (#[trigger] after[i]).text().len()
                    <= self.width() by {
                    lemma_member_after_push(before, value, after, i);
                }
            }
        }
    }

    /// The width of the field in which each element is drawn.
    pub fn max_node_length(&self) -> (width: usize)
        ensures
            width == self.width(),
    {
        self.max_node_length
    }

    /// The number of elements.
    pub fn len(&self) -> (n: usize)
        ensures
            n == self@.len(),
    {
        self.inner.len()
    }

    /// Whether the heap holds no element.
    pub fn is_empty(&self) -> (empty: bool)
        ensures
            empty <==> self@.len() == 0,
    {
        self.inner.is_empty()
    }

    /// The element of node `index`, or `None` where the heap has no such
    /// node. Node 1 is the root.
    pub fn get(&self, index: usize) -> (element: Option<&T>)
        requires
            index >= 1,
        ensures
            element == if has_node(self@, index as int) {
                Some(&node(self@, index as int))
            } else {
                None
            },
    {
        self.inner.get(index)
    }

    /// The heap that holds the elements, for reading.
    pub fn heap(&self) -> (heap: &MinHeap<T>)
        ensures
            heap@ == self@,
    {
        &self.inner
    }

    /// The elements in the order of their nodes, in square brackets and with
    /// a comma and a space between them.
    pub fn to_display_string(&self) -> (s: String)
        ensures
            s@ == crate::text::list_text(self@),
    {
        self.inner.to_display_string()
    }

    /// The number of nodes in the widest level of a complete tree of `count`
    /// nodes: two to the power of the index of the highest bit that is set in
    /// `count`.
    pub fn get_largest_row_size(&self, count: usize) -> (size: usize)
        requires
            count >= 1,
        ensures
            size == largest_row_size(count as nat),
            is_pow2(size as int),
            size <= count < 2 * size,
    {
        let wide: u64 = count as u64;
        let largest_bit_index: u32 = u64::BITS - wide.leading_zeros();
        let shift: u64 = (largest_bit_index - 1) as u64;
        proof {
            lemma_largest_row_size_is_top_bit(wide);
            lemma_largest_row_size(count as nat);
            vstd::bits::lemma_u64_shl_is_mul(1, shift);
        }
        (1u64 << shift) as usize
    }

    /// Appends the field of node `index` to `out`.
    fn push_cell(&self, out: &mut String, index: usize)
        requires
            1 <= index <= self@.len(),
        ensures
            final(out)@ == old(out)@ + cell(node(self@, index as int), self.width()),
    {
        let written = match self.inner.get(index) {
            Some(element) => element.to_text(),
            None => String::new(),
        };
        let length: usize = written.as_str().unicode_len();
        if length >= self.max_node_length {
            out.append(written.as_str());
        } else if length > 0 && written.as_str().get_char(0) == '-' {
            out.push('-');
            push_repeated(out, '0', self.max_node_length - length);
            out.append(written.as_str().substring_char(1, length));
        } else {
            push_repeated(out, '0', self.max_node_length - length);
            out.append(written.as_str());
        }
        assert(out@ =~= old(out)@ + cell(node(self@, index as int), self.width()));
    }

    /// The line of the nodes `start_index` to `final_index`, or to the last
    /// node of the heap where `final_index` is beyond it: before each element
    /// stands `row_padding`; after each but the last stand `row_padding` and
    /// `node_length_padding`; after the last stands the line break.
    pub fn print_row(
        &self,
        start_index: usize,
        final_index: usize,
        row_padding: &str,
        node_length_padding: &str,
    ) -> (out: String)
        requires
            self@.len() >= 1,
            start_index >= 1,
            final_index >= 1,
        ensures
            out@ == row_text(
                self@,
                self.width(),
                row_padding@,
                node_length_padding@,
                start_index as int,
                if final_index <= self@.len() {
                    final_index as int
                } else {
                    self@.len() as int
                },
            ),
    {
        let last: usize = self.inner.last_node_index();
        let final_index: usize = if final_index < last {
            final_index
        } else {
            last
        };
        let ghost whole = row_text(
            self@,
            self.width(),
            row_padding@,
            node_length_padding@,
            start_index as int,
            final_index as int,
        );
        let mut out = String::new();
        let mut index: usize = start_index;
        while index < final_index
            invariant
                1 <= index,
                1 <= final_index <= self@.len(),
                index <= final_index || index == start_index,
                out@ + row_text(
                    self@,
                    self.width(),
                    row_padding@,
                    node_length_padding@,
                    index as int,
                    final_index as int,
                ) == whole,
            decreases final_index - index,
        {
            out.append(row_padding);
            self.push_cell(&mut out, index);
            out.append(row_padding);
            out.append(node_length_padding);
            index += 1;
            assert(out@ + row_text(
                self@,
                self.width(),
                row_padding@,
                node_length_padding@,
                index as int,
                final_index as int,
            ) =~= whole);
        }
        out.append(row_padding);
        self.push_cell(&mut out, final_index);
        out.push('\n');
        assert(out@ =~= whole);
        out
    }

    /// The drawing of the heap as a tree: one line for each level, from the
    /// root down.
    pub fn print(&self) -> (out: String)
        requires
            self@.len() >= 1,
        ensures
            out@ == tree_text(self@, self.width()),
    {
        let node_length_padding = repeat_char(' ', self.max_node_length);
        let count: usize = self.len();
        let ghost widest = largest_row_size(count as nat);

        let mut row_size: usize = 1;
        let mut index: usize = row_size;
        let mut inverse_row_size: usize = self.get_largest_row_size(count);
        let mut out = String::new();

        assert(count as nat / 1 == count);
        loop
            invariant_except_break
                out@ + rows_text(self@, self.width(), widest, index as int) == tree_text(
                    self@,
                    self.width(),
                ),
            invariant
                count == self@.len(),
                widest == largest_row_size(count as nat),
                node_length_padding@ == spaces(self.width()),
                1 <= index <= count,
                row_size == index,
                inverse_row_size >= 1,
                inverse_row_size == largest_row_size(count as nat / index as nat),
                widest == index * inverse_row_size,
            ensures
                out@ == tree_text(self@, self.width()),
            decreases count - index,
        {
            let row_padding = repeat_text(node_length_padding.as_str(), inverse_row_size - 1);
            let final_index: usize = if count - index < row_size {
                count
            } else {
                index + (row_size - 1)
            };
            proof {
                lemma_repeated_spaces(self.width(), (inverse_row_size - 1) as nat);
                assert(widest / (index as nat) == inverse_row_size) by (nonlinear_arith)
                    requires
                        widest == index * inverse_row_size,
                        index >= 1,
                ;
                assert(final_index == row_end(count as nat, index as int));
            }
            let row = self.print_row(
                index,
                final_index,
                row_padding.as_str(),
                node_length_padding.as_str(),
            );
            let ghost before = out@;
            out.append(row.as_str());

            if final_index == count {
                assert(out@ =~= before + rows_text(self@, self.width(), widest, index as int));
                break ;
            }
            proof {
                assert(out@ + rows_text(self@, self.width(), widest, 2 * index) =~= before
                    + rows_text(self@, self.width(), widest, index as int));
                lemma_largest_row_size_halves(count as nat, index as nat);
                assert(count as nat / (2 * index) as nat >= 1) by (nonlinear_arith)
                    requires
                        index >= 1,
                        2 * index <= count,
                ;
                lemma_largest_row_size(count as nat / (2 * index) as nat);
                assert(widest == (2 * index) * (inverse_row_size / 2)) by (nonlinear_arith)
                    requires
                        widest == index * inverse_row_size,
                        inverse_row_size % 2 == 0,
                ;
            }
            index = final_index + 1;
            row_size *= 2;
            inverse_row_size /= 2;
        }
        out
    }
}

impl HeapPrinter<u32> {
    /// A printer with a heap of `count` numbers, each drawn at random from
    /// the closed range from `low` to `high`, and with a field as wide as the
    /// numeral of `high`.
    pub fn new_rand(count: usize, low: u32, high: u32) -> (printer: Self)
        requires
            count > 0 ==> low <= high,
        ensures
            printer@.len() == count,
            printer.width() == decimal(high as nat).len(),
            heap_ordered(printer@),
            printer.fits(),
            forall|i: int| 0 <= i < printer@.len() ==> low <= #[trigger] printer@[i] <= high,
            exists|drawn: Seq<u32>|
                {
                    &&& drawn.len() == count
                    &&& forall|i: int| 0 <= i < drawn.len() ==> low <= #[trigger] drawn[i] <= high
                    &&& printer@ == pushed_all(Seq::<u32>::empty(), drawn)
                },
    {
        let written = high.to_text();
        let printer = Self {
            max_node_length: written.as_str().unicode_len(),
            inner: MinHeap::new_rand(count, low, high),
        };
        proof {
            assert forall|i: int| 0 <= i < printer@.len() implies (#[trigger] printer@[i]).text().len()
                <= printer.width() by {
                lemma_decimal_len_grows(printer@[i] as nat, high as nat);
            }
        }
        printer
    }
}

/// Each element of a store after a push is the element pushed or one that
/// the store held before.
proof fn lemma_member_after_push<T: Ord>(before: Seq<T>, value: T, after: Seq<T>, i: int)
    requires
        after.to_multiset() == before.to_multiset().insert(value),
        0 <= i < after.len(),
    ensures
        after[i] == value || before.contains(after[i]),
{
    broadcast use vstd::seq_lib::group_to_multiset_ensures;

    assert(after.to_multiset().count(after[i]) > 0);
    if after[i] != value {
        assert(before.to_multiset().count(after[i]) > 0);
    }
}

} // verus!
