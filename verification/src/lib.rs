//! A small verified library grown around a streaming text-search pipeline:
//! pattern filtering, a bounded FIFO queue, ordered output, and a handful of
//! classic data structures (search trees, linked lists, big integers, an RPN
//! stack) with full functional contracts.

pub mod bigint;
pub mod bst;
pub mod deque;
pub mod linked_stack;
pub mod numfmt;
pub mod order;
pub mod pattern;
pub mod persistent_list;
pub mod pipeline;
pub mod queue;
pub mod rooms;
pub mod rpn;
pub mod sieve;
pub mod strsort;
pub mod vec_basics;
