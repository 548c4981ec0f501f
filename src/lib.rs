//! A singly-linked list in two styles (a persistent cons list and an owning
//! list with draining and borrowing iterators), a few functions built on top
//! of the owning list, and small language examples, all with proved contracts.

pub mod linkedlist;
pub mod slides;
pub mod solution;
