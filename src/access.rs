//! Permission-checked access to memory that another address space maps:
//! every page is translated and its permission tested before any byte of it
//! is exposed.

use vstd::prelude::*;
use crate::addr::{spec_floor, spec_page_offset, spec_page_to_addr, PhysAddr, VirtAddr, MAX_PAGE_NUM, PAGE_SIZE};
use crate::error::MmError;
use crate::flags::{PTEFlags, PTOps, FLAG_R, FLAG_W};
use crate::pagetable::{spec_translate, PageTable};
use crate::phys::PhysMemory;

verus! {

/// Where `va` lies in physical memory, provided its page is validly mapped
/// with every flag of `perm`.
pub open spec fn spec_checked_pa<T: PTOps>(mem: PhysMemory, root: usize, va: usize, perm: u64) -> Result<PhysAddr, MmError> {
    match spec_translate::<T>(mem, root, spec_floor(va) as usize) {
        None => Err(MmError::TranslationMiss),
        Some(e) => if T::spec_flags(e) & perm != perm {
            Err(MmError::PermissionDenied)
        } else if T::spec_ppn(e) > MAX_PAGE_NUM {
            Err(MmError::TranslationMiss)
        } else {
            Ok(PhysAddr((spec_page_to_addr(T::spec_ppn(e)) + spec_page_offset(va)) as usize))
        },
    }
}

/// `acc` in front of a successful result; an error passes through.
pub open spec fn spec_prepend<A>(acc: Seq<A>, r: Result<Seq<A>, MmError>) -> Result<Seq<A>, MmError> {
    match r {
        Ok(rest) => Ok(acc + rest),
        Err(e) => Err(e),
    }
}

/// The character a byte stands for.
pub open spec fn spec_byte_char(b: u8) -> char {
    (b as u32) as char
}

/// The NUL-terminated string at `va`, terminator excluded, read through
/// readable pages only.
pub open spec fn spec_c_string<T: PTOps>(mem: PhysMemory, root: usize, va: usize) -> Result<Seq<char>, MmError>
    decreases usize::MAX - va,
{
    match spec_checked_pa::<T>(mem, root, va, FLAG_R) {
        Err(e) => Err(e),
        Ok(pa) => if !mem.has_addr(pa.0) {
            Err(MmError::TranslationMiss)
        } else if mem.spec_byte(pa.0) == 0 {
            Ok(Seq::empty())
        } else if va == usize::MAX {
            Err(MmError::TranslationMiss)
        } else {
            spec_prepend(seq![spec_byte_char(mem.spec_byte(pa.0))], spec_c_string::<T>(mem, root, (va + 1) as usize))
        },
    }
}

/// The physical pieces of the readable range `[start, end)`, split at page
/// boundaries.
pub open spec fn spec_chunks<T: PTOps>(mem: PhysMemory, root: usize, start: usize, end: usize) -> Result<Seq<(PhysAddr, usize)>, MmError>
    decreases end - start,
{
    if start >= end {
        Ok(Seq::empty())
    } else {
        match spec_checked_pa::<T>(mem, root, start, FLAG_R) {
            Err(e) => Err(e),
            Ok(pa) => {
                let room = PAGE_SIZE - spec_page_offset(start);
                let n = if room < end - start { room } else { (end - start) as int };
                spec_prepend(seq![(pa, n as usize)], spec_chunks::<T>(mem, root, (start + n) as usize, end))
            },
        }
    }
}

/// Relies on `String::push`: appends one character.
#[verifier::external_body]
fn push_char(s: &mut String, c: char)
    ensures
        final(s)@ == old(s)@.push(c),
{
    s.push(c);
}

/// Where `va` lies in physical memory, provided its page is validly mapped
/// with every flag of `perm`.
pub fn translate_checked<T: PTOps>(pt: &PageTable<T>, mem: &PhysMemory, va: VirtAddr, perm: PTEFlags) -> (r: Result<PhysAddr, MmError>)
    requires
        mem.wf(),
    ensures
        r == spec_checked_pa::<T>(*mem, pt.spec_root(), va.0, perm.bits),
{
    let vpn = T::va_to_vpn(va);
    match pt.translate_vpn(mem, vpn) {
        None => Err(MmError::TranslationMiss),
        Some(pte) => {
            let flags = T::pte_to_generic_flags(&pte);
            if !flags.contains(perm) {
                return Err(MmError::PermissionDenied);
            }
            let target = T::pte_to_ppn(&pte);
            if target.0 > MAX_PAGE_NUM {
                return Err(MmError::TranslationMiss);
            }
            let page_start = T::ppn_to_pa(target);
            let offset = va.page_offset();
            proof {
                assert(page_start.0 + offset <= usize::MAX) by (nonlinear_arith)
                    requires
                        page_start.0 == target.0 * 4096,
                        target.0 <= usize::MAX / 4096,
                        offset < 4096,
                ;
            }
            Ok(PhysAddr(page_start.0 + offset))
        },
    }
}

/// Where a value of `size` bytes and alignment `align` at `va` lies, provided
/// it is aligned, sits inside one page, and that page is validly mapped with
/// every flag of `perm`.
pub open spec fn spec_value_pa<T: PTOps>(mem: PhysMemory, root: usize, va: usize, size: nat, align: nat, perm: u64) -> Result<PhysAddr, MmError> {
    if (va as nat) % align != 0 || spec_page_offset(va) + size > PAGE_SIZE {
        Err(MmError::MisalignedAddress)
    } else {
        spec_checked_pa::<T>(mem, root, va, perm)
    }
}

fn translate_value<T: PTOps>(pt: &PageTable<T>, mem: &PhysMemory, va: VirtAddr, size: usize, align: usize, perm: PTEFlags) -> (r: Result<PhysAddr, MmError>)
    requires
        mem.wf(),
        align != 0,
    ensures
        r == spec_value_pa::<T>(*mem, pt.spec_root(), va.0, size as nat, align as nat, perm.bits),
{
    if va.0 % align != 0 || size > PAGE_SIZE - va.page_offset() {
        return Err(MmError::MisalignedAddress);
    }
    translate_checked(pt, mem, va, perm)
}

/// Where a `U` at `va` may be read: it must be aligned, inside one page, and
/// that page readable.
pub fn translate_ref<T: PTOps, U>(pt: &PageTable<T>, mem: &PhysMemory, va: VirtAddr) -> (r: Result<PhysAddr, MmError>)
    requires
        mem.wf(),
    ensures
        r == spec_value_pa::<T>(*mem, pt.spec_root(), va.0, vstd::layout::size_of::<U>(), vstd::layout::align_of::<U>(), FLAG_R),
{
    vstd::layout::layout_for_type_is_valid::<U>();
    translate_value(pt, mem, va, core::mem::size_of::<U>(), core::mem::align_of::<U>(), PTEFlags { bits: FLAG_R })
}

/// Where a `U` at `va` may be written: it must be aligned, inside one page,
/// and that page writable.
pub fn translate_refmut<T: PTOps, U>(pt: &PageTable<T>, mem: &PhysMemory, va: VirtAddr) -> (r: Result<PhysAddr, MmError>)
    requires
        mem.wf(),
    ensures
        r == spec_value_pa::<T>(*mem, pt.spec_root(), va.0, vstd::layout::size_of::<U>(), vstd::layout::align_of::<U>(), FLAG_W),
{
    vstd::layout::layout_for_type_is_valid::<U>();
    translate_value(pt, mem, va, core::mem::size_of::<U>(), core::mem::align_of::<U>(), PTEFlags { bits: FLAG_W })
}

/// The NUL-terminated string at `va`, read byte by byte through readable
/// pages; each byte stands for one character.
pub fn translate_string<T: PTOps>(pt: &PageTable<T>, mem: &PhysMemory, va: VirtAddr) -> (r: Result<String, MmError>)
    requires
        mem.wf(),
    ensures
        r.is_ok() ==> spec_c_string::<T>(*mem, pt.spec_root(), va.0) == Ok::<Seq<char>, MmError>(r.unwrap()@),
        r.is_err() ==> spec_c_string::<T>(*mem, pt.spec_root(), va.0) == Err::<Seq<char>, MmError>(r.unwrap_err()),
{
    let ghost root = pt.spec_root();
    let mut s = String::new();
    let mut cur: usize = va.0;
    proof {
        assert(s@ + Seq::<char>::empty() =~= s@);
        match spec_c_string::<T>(*mem, root, cur) {
            Ok(rest) => {
                assert(s@ + rest =~= rest);
            },
            Err(_) => {},
        }
    }
    loop
        invariant
            mem.wf(),
            root == pt.spec_root(),
            spec_c_string::<T>(*mem, root, va.0) == spec_prepend(s@, spec_c_string::<T>(*mem, root, cur)),
        decreases usize::MAX - cur,
    {
        let pa = match translate_checked(pt, mem, VirtAddr(cur), PTEFlags { bits: FLAG_R }) {
            Ok(pa) => pa,
            Err(e) => {
                return Err(e);
            },
        };
        let b = match mem.read_byte(pa) {
            Some(b) => b,
            None => {
                return Err(MmError::TranslationMiss);
            },
        };
        if b == 0 {
            proof {
                assert(s@ + Seq::<char>::empty() =~= s@);
            }
            return Ok(s);
        }
        if cur == usize::MAX {
            return Err(MmError::TranslationMiss);
        }
        let c = b as char;
        assert(c == spec_byte_char(b));
        let ghost before = s@;
        push_char(&mut s, c);
        proof {
            match spec_c_string::<T>(*mem, root, (cur + 1) as usize) {
                Ok(rest) => {
                    assert(before + (seq![c] + rest) =~= s@ + rest);
                },
                Err(_) => {},
            }
        }
        cur = cur + 1;
    }
}

/// The physical pieces of the readable range of `len` bytes at `va`, split
/// at page boundaries, in address order.
pub fn translate_byte_buffer<T: PTOps>(pt: &PageTable<T>, mem: &PhysMemory, va: VirtAddr, len: usize) -> (r: Result<Vec<(PhysAddr, usize)>, MmError>)
    requires
        mem.wf(),
    ensures
        va.0 + len > usize::MAX ==> r == Err::<Vec<(PhysAddr, usize)>, MmError>(MmError::TranslationMiss),
        va.0 + len <= usize::MAX ==> {
            &&& r.is_ok() ==> spec_chunks::<T>(*mem, pt.spec_root(), va.0, (va.0 + len) as usize) == Ok::<Seq<(PhysAddr, usize)>, MmError>(r.unwrap()@)
            &&& r.is_err() ==> spec_chunks::<T>(*mem, pt.spec_root(), va.0, (va.0 + len) as usize) == Err::<Seq<(PhysAddr, usize)>, MmError>(r.unwrap_err())
        },
{
    if len > usize::MAX - va.0 {
        return Err(MmError::TranslationMiss);
    }
    let ghost root = pt.spec_root();
    let end = va.0 + len;
    let mut start = va.0;
    let mut chunks: Vec<(PhysAddr, usize)> = Vec::new();
    proof {
        match spec_chunks::<T>(*mem, root, start, end) {
            Ok(rest) => {
                assert(chunks@ + rest =~= rest);
            },
            Err(_) => {},
        }
    }
    while start < end
        invariant
            mem.wf(),
            root == pt.spec_root(),
            va.0 <= start <= end,
            end == va.0 + len,
            spec_chunks::<T>(*mem, root, va.0, end) == spec_prepend(chunks@, spec_chunks::<T>(*mem, root, start, end)),
        decreases end - start,
    {
        let pa = match translate_checked(pt, mem, VirtAddr(start), PTEFlags { bits: FLAG_R }) {
            Ok(pa) => pa,
            Err(e) => {
                return Err(e);
            },
        };
        let room = PAGE_SIZE - VirtAddr(start).page_offset();
        let n = if room < end - start { room } else { end - start };
        let ghost before = chunks@;
        chunks.push((pa, n));
        proof {
            match spec_chunks::<T>(*mem, root, (start + n) as usize, end) {
                Ok(rest) => {
                    assert(before + (seq![(pa, n)] + rest) =~= chunks@ + rest);
                },
                Err(_) => {},
            }
        }
        start = start + n;
    }
    proof {
        assert(chunks@ + Seq::<(PhysAddr, usize)>::empty() =~= chunks@);
    }
    Ok(chunks)
}

} // verus!
