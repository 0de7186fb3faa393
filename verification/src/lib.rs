//! An array-backed binary min-heap and a printer that draws it as a tree.
//!
//! [`Heap`] is the indexed store, [`MinHeap`] keeps it in heap order, and
//! [`HeapPrinter`] draws the heap level by level.

pub mod min_heap;
pub mod order;
pub mod printer;
mod random;
pub mod store;
pub mod text;

pub use min_heap::MinHeap;
pub use printer::HeapPrinter;
pub use store::Heap;
pub use text::Printable;
