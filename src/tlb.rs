//! Translation-cache maintenance. Each architecture issues its own
//! privileged instructions; the page table never calls these by itself, so
//! whoever changes a mapping invalidates the affected address.

use vstd::prelude::*;
use crate::addr::VirtAddr;

verus! {

/// The translation-cache operations an architecture provides.
pub trait TLBOperation {
    /// Drops any cached translation of the page holding `vaddr`.
    fn flush_vaddr(vaddr: VirtAddr);

    /// Drops every cached translation.
    fn flush_all();

    /// Makes the table that `token` names the active one, then drops every
    /// cached translation.
    fn switch_page_table(token: u64);
}

} // verus!
