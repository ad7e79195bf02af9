use crate::elf::Elf64;
use crate::elf::header_valid;
use crate::elf::spec_entry;
use crate::elf::spec_expand_info;
use crate::elf::spec_image;
use crate::elf::spec_table;
use crate::elf::lemma_expand_info_bounds;
use crate::elf::lemma_image_len;
use crate::error::LoadError;
use crate::pages::bump;
use crate::pages::spec_pages_for;
use crate::pages::PageAllocator;
use crate::pages::PageBox;
use crate::pages::PAGE_SIZE;
use vstd::prelude::*;
use vstd::slice::slice_subrange;

verus! {

/// The load descriptor handed to the later control-transfer stage: the
/// expanded kernel image, the virtual address the image expects to sit at,
/// and its declared entry point. The image buffer is owned here and
/// intentionally never released — it must outlive the whole bootstrap.
#[derive(Debug)]
pub struct Kernel {
    pub kernel_buff: Vec<u8>,
    pub kernel_virtual_addr: u64,
    pub entry_point: u64,
}

/// What a successful expansion ensures of the descriptor: the buffer holds
/// the materialized image of `s` over its page-rounded length, and the two
/// addresses come from the image's span and header.
pub open spec fn kernel_matches(k: Kernel, s: Seq<u8>) -> bool {
    match spec_expand_info(s) {
        Ok(info) => {
            let pages = spec_pages_for((info.upper_addr - info.lower_addr) as nat);
            &&& k.kernel_virtual_addr == info.lower_addr
            &&& k.entry_point == spec_entry(s)
            &&& k.kernel_buff@.len() == pages * PAGE_SIZE
            &&& k.kernel_buff@ == spec_image(
                spec_table(s),
                s,
                info.lower_addr as int,
                (pages * PAGE_SIZE) as nat,
            )
        },
        Err(_) => false,
    }
}

impl Kernel {
    /// Builds the load descriptor out of a fully read image: parses it,
    /// computes its expansion span, allocates a page-rounded destination
    /// for the span and materializes the image into it. The destination's
    /// pages stay outstanding — ownership passes out with the descriptor.
    pub fn expand_kernel(alloc: &mut PageAllocator, kernel_temp_buff: &[u8]) -> (r: Result<
        Kernel,
        LoadError,
    >)
        requires
            old(alloc).available(),
        ensures
            final(alloc).available(),
            final(alloc).frees() == old(alloc).frees(),
            ({
                let s = kernel_temp_buff@;
                if !header_valid(s) {
                    &&& r == Err::<Kernel, LoadError>(LoadError::InvalidFormat)
                    &&& *final(alloc) == *old(alloc)
                } else {
                    match spec_expand_info(s) {
                        Err(e) => {
                            &&& r == Err::<Kernel, LoadError>(e)
                            &&& *final(alloc) == *old(alloc)
                        },
                        Ok(info) => {
                            let pages = spec_pages_for(
                                (info.upper_addr - info.lower_addr) as nat,
                            );
                            if old(alloc).grants(pages as nat) {
                                &&& r matches Ok(k) && kernel_matches(k, s)
                                &&& final(alloc).live() == old(alloc).live() + pages
                                &&& pages > 0 ==> final(alloc).allocs() == bump(
                                    old(alloc).allocs(),
                                )
                                &&& pages == 0 ==> *final(alloc) == *old(alloc)
                            } else {
                                &&& r == Err::<Kernel, LoadError>(LoadError::AllocationFailure)
                                &&& final(alloc).live() == old(alloc).live()
                                &&& final(alloc).spec_budget() == old(alloc).spec_budget()
                            }
                        },
                    }
                }
            }),
    {
        let elf64 = match Elf64::new(kernel_temp_buff) {
            Ok(e) => e,
            Err(err) => {
                return Err(err);
            },
        };
        let expand_info = match elf64.expand_info() {
            Ok(info) => info,
            Err(err) => {
                return Err(err);
            },
        };
        proof {
            lemma_expand_info_bounds(kernel_temp_buff@);
        }
        let expand_size = expand_info.upper_addr - expand_info.lower_addr;
        let kernel_virtual_addr = expand_info.lower_addr;
        let entry_point = match elf64.entry() {
            Ok(e) => e,
            Err(err) => {
                proof {
                    assert(false);
                }
                return Err(err);
            },
        };

        if expand_size > usize::MAX as u64 {
            proof {
                let size = (expand_info.upper_addr - expand_info.lower_addr) as nat;
                let pages = spec_pages_for(size);
                vstd::arithmetic::div_mod::lemma_fundamental_div_mod(
                    (size + PAGE_SIZE - 1) as int,
                    PAGE_SIZE as int,
                );
                assert(pages * PAGE_SIZE > usize::MAX) by (nonlinear_arith)
                    requires
                        size > usize::MAX,
                        pages == ((size + PAGE_SIZE - 1) as int) / (PAGE_SIZE as int),
                        (size + PAGE_SIZE - 1) as int == pages * PAGE_SIZE + ((size + PAGE_SIZE
                            - 1) as int % (PAGE_SIZE as int)),
                        0 <= (size + PAGE_SIZE - 1) as int % (PAGE_SIZE as int) < PAGE_SIZE;
            }
            return Err(LoadError::AllocationFailure);
        }
        let kernel_buff_pagebox = match PageBox::new_from_bytes(alloc, expand_size as usize) {
            Ok(b) => b,
            Err(err) => {
                return Err(err);
            },
        };
        let mut kernel_buff: Vec<u8> = kernel_buff_pagebox.leak();
        proof {
            let s = kernel_temp_buff@;
            let info = expand_info;
            lemma_image_len(
                spec_table(s),
                s,
                info.lower_addr as int,
                kernel_buff@.len(),
            );
        }
        match elf64.expand(&mut kernel_buff) {
            Ok(_) => (),
            Err(err) => {
                proof {
                    assert(false);
                }
                return Err(err);
            },
        }

        Ok(
            Kernel {
                kernel_buff,
                kernel_virtual_addr,
                entry_point,
            },
        )
    }

    /// Composes the whole pipeline step that follows the firmware read: it
    /// checks that the read filled the temporary buffer to the file's
    /// reported size, expands the image it holds, and releases the
    /// temporary buffer on every path, error paths included. Only the
    /// final image buffer's pages stay outstanding.
    pub fn new(
        alloc: &mut PageAllocator,
        tmp: PageBox,
        file_size: usize,
        load_size: usize,
    ) -> (r: Result<Kernel, LoadError>)
        requires
            old(alloc).available(),
            tmp.wf(),
            file_size <= tmp@.len(),
            tmp.spec_pages() <= old(alloc).live(),
        ensures
            final(alloc).available(),
            final(alloc).frees() == if tmp.spec_pages() == 0 {
                old(alloc).frees()
            } else {
                bump(old(alloc).frees())
            },
            ({
                let s = tmp@.subrange(0, file_size as int);
                let released = old(alloc).live() - tmp.spec_pages();
                if load_size != file_size {
                    &&& r == Err::<Kernel, LoadError>(LoadError::ShortRead)
                    &&& final(alloc).live() == released
                    &&& final(alloc).allocs() == old(alloc).allocs()
                } else if !header_valid(s) {
                    &&& r == Err::<Kernel, LoadError>(LoadError::InvalidFormat)
                    &&& final(alloc).live() == released
                    &&& final(alloc).allocs() == old(alloc).allocs()
                } else {
                    match spec_expand_info(s) {
                        Err(e) => {
                            &&& r == Err::<Kernel, LoadError>(e)
                            &&& final(alloc).live() == released
                            &&& final(alloc).allocs() == old(alloc).allocs()
                        },
                        Ok(info) => {
                            let pages = spec_pages_for(
                                (info.upper_addr - info.lower_addr) as nat,
                            );
                            if old(alloc).grants(pages as nat) {
                                &&& r matches Ok(k) && kernel_matches(k, s)
                                &&& final(alloc).live() == released + pages
                            } else {
                                &&& r == Err::<Kernel, LoadError>(LoadError::AllocationFailure)
                                &&& final(alloc).live() == released
                            }
                        },
                    }
                }
            }),
    {
        if load_size != file_size {
            tmp.release(alloc);
            return Err(LoadError::ShortRead);
        }
        let full = tmp.bytes().as_slice();
        let kernel_temp_buff = slice_subrange(full, 0, file_size);
        let result = Self::expand_kernel(alloc, kernel_temp_buff);
        tmp.release(alloc);
        result
    }
}

} // verus!
