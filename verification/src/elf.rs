use crate::error::LoadError;
use crate::le::le16;
use crate::le::le32;
use crate::le::le64;
use crate::le::read_u16;
use crate::le::read_u32;
use crate::le::read_u64;
use vstd::prelude::*;
use vstd::slice::slice_index_get;
use vstd::slice::slice_subrange;

verus! {

/// Size in bytes of the fixed executable-image header.
pub const EHDR_SIZE: usize = 64;

/// Size in bytes of one program-header entry.
pub const PHDR_SIZE: usize = 56;

/// A non-owning, validated view over a byte buffer that holds a 64-bit
/// segment-based executable image.
pub struct Elf64<'a> {
    bin: &'a [u8],
}

impl<'a> View for Elf64<'a> {
    type V = Seq<u8>;

    closed spec fn view(&self) -> Seq<u8> {
        self.bin@
    }
}

/// The fixed-size image header. All fields are little-endian integers read
/// from the first `EHDR_SIZE` bytes of the image.
#[derive(Debug)]
pub struct Elf64Ehdr {
    pub e_ident: Vec<u8>,
    pub e_type: u16,
    pub e_machine: u16,
    pub e_version: u32,
    pub e_entry: u64,
    pub e_phoff: u64,
    pub e_shoff: u64,
    pub e_flags: u32,
    pub e_ehsize: u16,
    pub e_phentsize: u16,
    pub e_phnum: u16,
    pub e_shentsize: u16,
    pub e_shnum: u16,
    pub e_shstrndx: u16,
}

impl Elf64Ehdr {
    pub const EI_NIDENT: usize = 16;

    pub const ELFMAG0: u8 = 0x7f;

    pub const ELFMAG1: u8 = 0x45;

    pub const ELFMAG2: u8 = 0x4c;

    pub const ELFMAG3: u8 = 0x46;
}

/// One program-header entry: the description of a segment.
#[derive(Clone, Copy, Debug, PartialEq, Eq, Structural)]
pub struct Elf64Phdr {
    pub p_type: u32,
    pub p_flags: u32,
    pub p_offset: u64,
    pub p_vaddr: u64,
    pub p_paddr: u64,
    pub p_filesz: u64,
    pub p_memsz: u64,
    pub p_align: u64,
}

impl Elf64Phdr {
    pub const PT_NULL: u32 = 0;

    pub const PT_LOAD: u32 = 1;

    /// Whether the segment is mapped executable.
    pub fn x_flag(&self) -> (r: bool)
        ensures
            r == (self.p_flags & 0x1 != 0),
    {
        self.p_flags & 0x1 != 0
    }

    /// Whether the segment is mapped writable.
    pub fn w_flag(&self) -> (r: bool)
        ensures
            r == (self.p_flags & 0x2 != 0),
    {
        self.p_flags & 0x2 != 0
    }

    /// Whether the segment is mapped readable.
    pub fn r_flag(&self) -> (r: bool)
        ensures
            r == (self.p_flags & 0x4 != 0),
    {
        self.p_flags & 0x4 != 0
    }
}

/// The expansion span: the bounds of the minimal contiguous virtual-address
/// interval that covers every loadable segment of an image.
#[derive(Clone, Copy, Debug, PartialEq, Eq, Structural)]
pub struct Elf64ExpandInfo {
    pub lower_addr: u64,
    pub upper_addr: u64,
}

/// The buffer holds at least a full header and its first four bytes carry
/// the expected identification sequence.
pub open spec fn header_valid(s: Seq<u8>) -> bool {
    &&& s.len() >= EHDR_SIZE
    &&& s[0] == Elf64Ehdr::ELFMAG0
    &&& s[1] == Elf64Ehdr::ELFMAG1
    &&& s[2] == Elf64Ehdr::ELFMAG2
    &&& s[3] == Elf64Ehdr::ELFMAG3
}

/// The header's declared entry virtual address.
pub open spec fn spec_entry(s: Seq<u8>) -> u64 {
    le64(s, 24)
}

/// The header's declared file offset of the program-header table.
pub open spec fn spec_phoff(s: Seq<u8>) -> u64 {
    le64(s, 32)
}

/// The header's declared size of one program-header entry.
pub open spec fn spec_phentsize(s: Seq<u8>) -> u16 {
    le16(s, 54)
}

/// The header's declared number of program-header entries.
pub open spec fn spec_phnum(s: Seq<u8>) -> u16 {
    le16(s, 56)
}

/// The program-header entry that starts at byte offset `base` of `s`.
pub open spec fn spec_phdr(s: Seq<u8>, base: int) -> Elf64Phdr {
    Elf64Phdr {
        p_type: le32(s, base),
        p_flags: le32(s, base + 4),
        p_offset: le64(s, base + 8),
        p_vaddr: le64(s, base + 16),
        p_paddr: le64(s, base + 24),
        p_filesz: le64(s, base + 32),
        p_memsz: le64(s, base + 40),
        p_align: le64(s, base + 48),
    }
}

/// The header is present and the program-header table it declares lies
/// entirely inside the buffer, with entries large enough to read.
pub open spec fn table_in_bounds(s: Seq<u8>) -> bool {
    &&& s.len() >= EHDR_SIZE
    &&& spec_phoff(s) + spec_phnum(s) * spec_phentsize(s) <= s.len()
    &&& (spec_phnum(s) > 0 ==> spec_phentsize(s) >= PHDR_SIZE)
}

/// The program-header table of the image, as declared by its header.
pub open spec fn spec_table(s: Seq<u8>) -> Seq<Elf64Phdr> {
    Seq::new(
        spec_phnum(s) as nat,
        |i: int| spec_phdr(s, spec_phoff(s) + i * spec_phentsize(s)),
    )
}

/// A program-header entry read from a subrange of `s` equals the entry read
/// from `s` at the shifted offset.
proof fn lemma_phdr_shift(s: Seq<u8>, a: int, b: int, off: int)
    requires
        0 <= a <= b <= s.len(),
        0 <= off,
        off + PHDR_SIZE <= b - a,
    ensures
        spec_phdr(s.subrange(a, b), off) == spec_phdr(s, a + off),
{
    let sub = s.subrange(a, b);
    assert(sub.subrange(off, off + 4) =~= s.subrange(a + off, a + off + 4));
    assert(sub.subrange(off + 4, off + 8) =~= s.subrange(a + off + 4, a + off + 8));
    assert(sub.subrange(off + 8, off + 16) =~= s.subrange(a + off + 8, a + off + 16));
    assert(sub.subrange(off + 16, off + 24) =~= s.subrange(a + off + 16, a + off + 24));
    assert(sub.subrange(off + 24, off + 32) =~= s.subrange(a + off + 24, a + off + 32));
    assert(sub.subrange(off + 32, off + 40) =~= s.subrange(a + off + 32, a + off + 40));
    assert(sub.subrange(off + 40, off + 48) =~= s.subrange(a + off + 40, a + off + 48));
    assert(sub.subrange(off + 48, off + 56) =~= s.subrange(a + off + 48, a + off + 56));
}

/// `b` with `d` written at offset `at`: positions inside `[at, at + d.len())`
/// carry the bytes of `d`, every other position keeps its old byte.
pub open spec fn spec_overwrite(b: Seq<u8>, at: int, d: Seq<u8>) -> Seq<u8> {
    Seq::new(
        b.len(),
        |i: int|
            if at <= i < at + d.len() {
                d[i - at]
            } else {
                b[i]
            },
    )
}

/// The destination contents after the file-resident bytes of every loadable
/// segment of the table have been copied, in table order, over an all-zero
/// buffer of length `n`, each at its virtual address relative to `lower`.
/// A later segment wins any overlap.
pub open spec fn spec_image(t: Seq<Elf64Phdr>, s: Seq<u8>, lower: int, n: nat) -> Seq<u8>
    decreases t.len(),
{
    if t.len() == 0 {
        Seq::new(n, |i: int| 0u8)
    } else {
        let prev = spec_image(t.drop_last(), s, lower, n);
        let p = t.last();
        if loadable(p) {
            spec_overwrite(
                prev,
                p.p_vaddr - lower,
                s.subrange(p.p_offset as int, p.p_offset + p.p_filesz),
            )
        } else {
            prev
        }
    }
}

impl<'a> Elf64<'a> {
    /// Validates `bin` as an executable image: it must hold a full header
    /// whose identification bytes match the expected signature.
    pub fn new(bin: &'a [u8]) -> (r: Result<Self, LoadError>)
        ensures
            header_valid(bin@) ==> (r matches Ok(e) && e@ == bin@),
            !header_valid(bin@) ==> r == Err::<Self, LoadError>(LoadError::InvalidFormat),
    {
        let elf64 = Self { bin };
        if elf64.is_valid() {
            Ok(elf64)
        } else {
            Err(LoadError::InvalidFormat)
        }
    }

    fn is_valid(&self) -> (r: bool)
        ensures
            r == header_valid(self@),
    {
        if self.bin.len() < EHDR_SIZE {
            return false;
        }
        *slice_index_get(self.bin, 0) == Elf64Ehdr::ELFMAG0
            && *slice_index_get(self.bin, 1) == Elf64Ehdr::ELFMAG1
            && *slice_index_get(self.bin, 2) == Elf64Ehdr::ELFMAG2
            && *slice_index_get(self.bin, 3) == Elf64Ehdr::ELFMAG3
    }

    /// The image's declared entry virtual address. No further validation:
    /// an entry outside any loaded segment is a later stage's concern.
    pub fn entry(&self) -> (r: Result<u64, LoadError>)
        ensures
            self@.len() >= EHDR_SIZE ==> r == Ok::<u64, LoadError>(spec_entry(self@)),
            self@.len() < EHDR_SIZE ==> r == Err::<u64, LoadError>(LoadError::InvalidFormat),
    {
        if self.bin.len() < EHDR_SIZE {
            return Err(LoadError::InvalidFormat);
        }
        Ok(read_u64(self.bin, 24))
    }

    /// Reads the fixed-size header out of the image.
    pub fn elf_header(&self) -> (r: Result<Elf64Ehdr, LoadError>)
        ensures
            self@.len() < EHDR_SIZE ==> r == Err::<Elf64Ehdr, LoadError>(LoadError::InvalidFormat),
            self@.len() >= EHDR_SIZE ==> (r matches Ok(h) && {
                &&& h.e_ident@ == self@.subrange(0, 16)
                &&& h.e_type == le16(self@, 16)
                &&& h.e_machine == le16(self@, 18)
                &&& h.e_version == le32(self@, 20)
                &&& h.e_entry == spec_entry(self@)
                &&& h.e_phoff == spec_phoff(self@)
                &&& h.e_shoff == le64(self@, 40)
                &&& h.e_flags == le32(self@, 48)
                &&& h.e_ehsize == le16(self@, 52)
                &&& h.e_phentsize == spec_phentsize(self@)
                &&& h.e_phnum == spec_phnum(self@)
                &&& h.e_shentsize == le16(self@, 58)
                &&& h.e_shnum == le16(self@, 60)
                &&& h.e_shstrndx == le16(self@, 62)
            }),
    {
        if self.bin.len() < EHDR_SIZE {
            return Err(LoadError::InvalidFormat);
        }
        let mut ident: Vec<u8> = Vec::new();
        for i in 0..16
            invariant
                self@.len() >= EHDR_SIZE,
                ident@ =~= self@.subrange(0, i as int),
        {
            ident.push(*slice_index_get(self.bin, i));
            assert(ident@ =~= self@.subrange(0, i + 1 as int));
        }
        Ok(Elf64Ehdr {
            e_ident: ident,
            e_type: read_u16(self.bin, 16),
            e_machine: read_u16(self.bin, 18),
            e_version: read_u32(self.bin, 20),
            e_entry: read_u64(self.bin, 24),
            e_phoff: read_u64(self.bin, 32),
            e_shoff: read_u64(self.bin, 40),
            e_flags: read_u32(self.bin, 48),
            e_ehsize: read_u16(self.bin, 52),
            e_phentsize: read_u16(self.bin, 54),
            e_phnum: read_u16(self.bin, 56),
            e_shentsize: read_u16(self.bin, 58),
            e_shnum: read_u16(self.bin, 60),
            e_shstrndx: read_u16(self.bin, 62),
        })
    }

    /// The bytes of the image at `[start, end)`, bounds-checked against the
    /// buffer length.
    pub fn get(&self, start: usize, end: usize) -> (r: Result<&'a [u8], LoadError>)
        ensures
            start <= end <= self@.len() ==> (r matches Ok(b) && b@ == self@.subrange(
                start as int,
                end as int,
            )),
            !(start <= end <= self@.len()) ==> r == Err::<&'a [u8], LoadError>(
                LoadError::InvalidFormat,
            ),
    {
        if start <= end && end <= self.bin.len() {
            Ok(slice_subrange(self.bin, start, end))
        } else {
            Err(LoadError::InvalidFormat)
        }
    }

    /// The image's program-header table, as a restartable walk over its
    /// entries. Fails eagerly if the table the header declares does not lie
    /// inside the buffer, before any entry is produced.
    pub fn program_headers(&self) -> (r: Result<Elf64PhdrIter<'a>, LoadError>)
        ensures
            table_in_bounds(self@) ==> (r matches Ok(it) && it.wf() && it@ == spec_table(self@)),
            !table_in_bounds(self@) ==> r == Err::<Elf64PhdrIter<'a>, LoadError>(
                LoadError::InvalidFormat,
            ),
    {
        if self.bin.len() < EHDR_SIZE {
            return Err(LoadError::InvalidFormat);
        }
        let phdr_offset = read_u64(self.bin, 32);
        let phdr_entsize = read_u16(self.bin, 54);
        let phdr_num = read_u16(self.bin, 56);

        let len_u64 = self.bin.len() as u64;
        if phdr_offset > len_u64 {
            return Err(LoadError::InvalidFormat);
        }
        proof {
            assert((phdr_entsize as int) * (phdr_num as int) <= 0xffff * 0xffff)
                by (nonlinear_arith)
                requires phdr_entsize <= 0xffff, phdr_num <= 0xffff;
            assert((phdr_entsize as int) * (phdr_num as int) >= 0) by (nonlinear_arith)
                requires phdr_entsize >= 0, phdr_num >= 0;
        }
        let table_bytes = (phdr_entsize as u64) * (phdr_num as u64);
        if table_bytes > len_u64 - phdr_offset {
            proof {
                assert((phdr_num as int) * (phdr_entsize as int) == (phdr_entsize as int) * (
                phdr_num as int)) by (nonlinear_arith);
            }
            return Err(LoadError::InvalidFormat);
        }
        if phdr_num > 0 && (phdr_entsize as usize) < PHDR_SIZE {
            return Err(LoadError::InvalidFormat);
        }

        let start = phdr_offset as usize;
        let end = start + (table_bytes as usize);
        let table = slice_subrange(self.bin, start, end);
        let it = Elf64PhdrIter::new(table, phdr_num as usize, phdr_entsize as usize)?;
        proof {
            let s = self@;
            let phoff = spec_phoff(s) as int;
            let e = spec_phentsize(s) as int;
            let n = spec_phnum(s) as int;
            assert forall|i: int| 0 <= i < n implies it@[i] == spec_table(s)[i] by {
                assert((i + 1) * e <= n * e) by (nonlinear_arith)
                    requires 0 <= i < n, e >= 0;
                assert(i * e >= 0) by (nonlinear_arith)
                    requires i >= 0, e >= 0;
                assert((i + 1) * e == i * e + e) by (nonlinear_arith);
                lemma_phdr_shift(s, phoff, phoff + n * e, i * e);
            }
            assert(it@ =~= spec_table(s));
        }
        Ok(it)
    }

    /// Computes the expansion span: the minimal contiguous virtual-address
    /// interval covering every loadable segment. Segments other than
    /// loadable ones are ignored; an inconsistent loadable segment or an
    /// image with no loadable segment is rejected.
    pub fn expand_info(&self) -> (r: Result<Elf64ExpandInfo, LoadError>)
        ensures
            r == spec_expand_info(self@),
    {
        let mut iter = match self.program_headers() {
            Ok(it) => it,
            Err(e) => {
                return Err(e);
            },
        };
        let ghost t = spec_table(self@);
        let ghost blen = self@.len() as int;
        let len_u64 = self.bin.len() as u64;
        let mut flag = true;
        let mut lower_addr: u64 = 0;
        let mut upper_addr: u64 = 0;
        let ghost mut k: int = 0;
        loop
            invariant_except_break
                iter.wf(),
                0 <= k <= t.len(),
                iter@ == t.skip(k),
                t == spec_table(self@),
                blen == self@.len(),
                len_u64 == self@.len(),
                table_in_bounds(self@),
                spec_walk(t.take(k), blen) == Ok::<Option<Elf64ExpandInfo>, LoadError>(
                    if flag {
                        None
                    } else {
                        Some(Elf64ExpandInfo { lower_addr, upper_addr })
                    },
                ),
            ensures
                spec_walk(t, blen) == Ok::<Option<Elf64ExpandInfo>, LoadError>(
                    if flag {
                        None
                    } else {
                        Some(Elf64ExpandInfo { lower_addr, upper_addr })
                    },
                ),
            decreases t.len() - k,
        {
            let next = iter.next();
            match next {
                None => {
                    proof {
                        assert(t.skip(k).len() == 0);
                        assert(t.take(k) =~= t);
                    }
                    break;
                },
                Some(phdr) => {
                    proof {
                        assert(phdr == t.skip(k)[0]);
                        assert(t.skip(k)[0] == t[k]);
                        assert(t.skip(k).skip(1) =~= t.skip(k + 1));
                        assert(t.take(k + 1).drop_last() =~= t.take(k));
                        assert(t.take(k + 1).last() == t[k]);
                    }
                    if phdr.p_type == Elf64Phdr::PT_LOAD {
                        if phdr.p_memsz < phdr.p_filesz {
                            proof {
                                lemma_walk_err_persists(t, blen, k + 1);
                            }
                            return Err(LoadError::CorruptSegment);
                        }
                        if phdr.p_filesz > len_u64 || phdr.p_offset > len_u64 - phdr.p_filesz {
                            proof {
                                lemma_walk_err_persists(t, blen, k + 1);
                            }
                            return Err(LoadError::CorruptSegment);
                        }
                        if phdr.p_memsz > u64::MAX - phdr.p_vaddr {
                            proof {
                                lemma_walk_err_persists(t, blen, k + 1);
                            }
                            return Err(LoadError::CorruptSegment);
                        }
                        let top = phdr.p_vaddr + phdr.p_memsz;
                        if flag {
                            lower_addr = phdr.p_vaddr;
                            upper_addr = top;
                            flag = false;
                        } else {
                            if phdr.p_vaddr < lower_addr {
                                lower_addr = phdr.p_vaddr;
                            }
                            if upper_addr < top {
                                upper_addr = top;
                            }
                        }
                    }
                    proof {
                        k = k + 1;
                    }
                },
            }
        }
        if !flag {
            proof {
                lemma_walk_props(t, blen);
            }
            assert(lower_addr <= upper_addr);
            Ok(Elf64ExpandInfo { lower_addr, upper_addr })
        } else {
            Err(LoadError::NoLoadableSegments)
        }
    }

    /// Materializes the image into `buff`: the whole destination is
    /// zero-filled first, then each loadable segment's file-resident bytes
    /// are copied to its virtual address relative to the span's lower bound.
    /// A destination smaller than the span is refused untouched.
    pub fn expand(&self, buff: &mut Vec<u8>) -> (r: Result<(), LoadError>)
        ensures
            final(buff)@.len() == old(buff)@.len(),
            match spec_expand_info(self@) {
                Err(e) => r == Err::<(), LoadError>(e) && final(buff)@ == old(buff)@,
                Ok(info) => {
                    if old(buff)@.len() < info.upper_addr - info.lower_addr {
                        &&& r == Err::<(), LoadError>(LoadError::BufferTooSmall)
                        &&& final(buff)@ == old(buff)@
                    } else {
                        &&& r == Ok::<(), LoadError>(())
                        &&& final(buff)@ == spec_image(
                            spec_table(self@),
                            self@,
                            info.lower_addr as int,
                            old(buff)@.len(),
                        )
                    }
                },
            },
    {
        let expand_info = match self.expand_info() {
            Ok(info) => info,
            Err(e) => {
                return Err(e);
            },
        };
        proof {
            lemma_expand_info_bounds(self@);
        }
        let expand_size = expand_info.upper_addr - expand_info.lower_addr;
        if (buff.len() as u64) < expand_size {
            return Err(LoadError::BufferTooSmall);
        }

        let n = buff.len();
        let mut i: usize = 0;
        while i < n
            invariant
                i <= n,
                buff@.len() == n,
                forall|j: int| 0 <= j < i ==> buff@[j] == 0u8,
            decreases n - i,
        {
            buff.set(i, 0x00);
            i = i + 1;
        }
        proof {
            assert(buff@ =~= Seq::new(n as nat, |j: int| 0u8));
        }

        let ghost t = spec_table(self@);
        let ghost blen = self@.len() as int;
        let ghost lower = expand_info.lower_addr as int;
        let bin_len = self.bin.len();
        let mut iter = match self.program_headers() {
            Ok(it) => it,
            Err(e) => {
                proof {
                    assert(false);
                }
                return Err(e);
            },
        };
        let ghost mut k: int = 0;
        loop
            invariant_except_break
                iter.wf(),
                0 <= k <= t.len(),
                iter@ == t.skip(k),
                t == spec_table(self@),
                blen == self@.len(),
                blen <= usize::MAX,
                bin_len == blen,
                table_in_bounds(self@),
                spec_expand_info(self@) == Ok::<Elf64ExpandInfo, LoadError>(expand_info),
                lower == expand_info.lower_addr,
                buff@.len() == n,
                n >= expand_info.upper_addr - expand_info.lower_addr,
                buff@ == spec_image(t.take(k), self@, lower, n as nat),
            ensures
                buff@ == spec_image(t, self@, lower, n as nat),
            decreases t.len() - k,
        {
            let next = iter.next();
            match next {
                None => {
                    proof {
                        assert(t.take(k) =~= t);
                    }
                    break;
                },
                Some(phdr) => {
                    proof {
                        assert(phdr == t.skip(k)[0]);
                        assert(t.skip(k)[0] == t[k]);
                        assert(t.skip(k).skip(1) =~= t.skip(k + 1));
                        assert(t.take(k + 1).drop_last() =~= t.take(k));
                        assert(t.take(k + 1).last() == t[k]);
                    }
                    if phdr.p_type == Elf64Phdr::PT_LOAD {
                        proof {
                            lemma_walk_props(t, blen);
                            assert(loadable(t[k]));
                            assert(seg_ok(t[k], blen));
                            assert(expand_info.lower_addr <= phdr.p_vaddr);
                            assert(phdr.p_vaddr + phdr.p_memsz <= expand_info.upper_addr);
                        }
                        let file_offset = phdr.p_offset as usize;
                        let file_sz = phdr.p_filesz as usize;
                        let dst_off = (phdr.p_vaddr - expand_info.lower_addr) as usize;
                        let ghost prev = buff@;
                        let ghost src = self@.subrange(
                            phdr.p_offset as int,
                            phdr.p_offset + phdr.p_filesz,
                        );
                        let mut j: usize = 0;
                        while j < file_sz
                            invariant
                                j <= file_sz,
                                buff@.len() == n,
                                prev.len() == n,
                                blen == self@.len(),
                                blen <= usize::MAX,
                                file_offset + file_sz <= blen,
                                dst_off + file_sz <= n,
                                file_offset == phdr.p_offset,
                                file_sz == phdr.p_filesz,
                                src == self@.subrange(
                                    file_offset as int,
                                    file_offset + file_sz,
                                ),
                                buff@ == spec_overwrite(prev, dst_off as int, src.take(j as int)),
                            decreases file_sz - j,
                        {
                            let b = *slice_index_get(self.bin, file_offset + j);
                            buff.set(dst_off + j, b);
                            proof {
                                assert(buff@ =~= spec_overwrite(
                                    prev,
                                    dst_off as int,
                                    src.take(j + 1),
                                ));
                            }
                            j = j + 1;
                        }
                        proof {
                            assert(src.take(file_sz as int) =~= src);
                            assert(buff@ == spec_image(t.take(k + 1), self@, lower, n as nat));
                        }
                    } else {
                        proof {
                            assert(buff@ == spec_image(t.take(k + 1), self@, lower, n as nat));
                        }
                    }
                    proof {
                        k = k + 1;
                    }
                },
            }
        }
        proof {
            lemma_image_len(t, self@, lower, n as nat);
        }
        Ok(())
    }
}

/// A restartable walk over the fixed-size entries of a program-header table.
#[derive(Clone, Copy, Debug)]
pub struct Elf64PhdrIter<'a> {
    bin: &'a [u8],
    ph_num: usize,
    ph_entsize: usize,
}

impl<'a> View for Elf64PhdrIter<'a> {
    type V = Seq<Elf64Phdr>;

    closed spec fn view(&self) -> Seq<Elf64Phdr> {
        Seq::new(self.ph_num as nat, |i: int| spec_phdr(self.bin@, i * self.ph_entsize))
    }
}

impl<'a> Elf64PhdrIter<'a> {
    /// The remaining bytes match the remaining entry count, and entries are
    /// large enough that reading one stays inside the bytes.
    pub closed spec fn wf(&self) -> bool {
        &&& self.bin@.len() == self.ph_num * self.ph_entsize
        &&& (self.ph_num > 0 ==> self.ph_entsize >= PHDR_SIZE)
    }

    /// Accepts a table slice whose length matches the declared entry count
    /// and size; entries must be large enough for every declared field.
    pub fn new(bin: &'a [u8], ph_num: usize, ph_entsize: usize) -> (r: Result<Self, LoadError>)
        ensures
            r matches Ok(it) ==> {
                &&& it.wf()
                &&& it@ == Seq::new(ph_num as nat, |i: int| spec_phdr(bin@, i * ph_entsize))
            },
            r is Ok <==> (ph_num * ph_entsize == bin@.len() && (ph_num > 0 ==> ph_entsize
                >= PHDR_SIZE)),
    {
        let len = bin.len();
        let fits = match ph_num.checked_mul(ph_entsize) {
            Some(total) => total == len,
            None => false,
        };
        if fits && (ph_num == 0 || ph_entsize >= PHDR_SIZE) {
            Ok(Self { bin, ph_num, ph_entsize })
        } else {
            Err(LoadError::InvalidFormat)
        }
    }

    /// Yields the next entry, or `None` once every entry has been produced.
    pub fn next(&mut self) -> (r: Option<Elf64Phdr>)
        requires
            old(self).wf(),
        ensures
            final(self).wf(),
            old(self)@.len() == 0 ==> r is None && final(self)@ == old(self)@,
            old(self)@.len() > 0 ==> {
                &&& r == Some(old(self)@[0])
                &&& final(self)@ == old(self)@.skip(1)
            },
    {
        if self.ph_num != 0 {
            proof {
                assert(self.ph_num * self.ph_entsize >= 1 * self.ph_entsize) by (nonlinear_arith)
                    requires self.ph_num >= 1, self.ph_entsize >= 0;
            }
            let phdr = Elf64Phdr {
                p_type: read_u32(self.bin, 0),
                p_flags: read_u32(self.bin, 4),
                p_offset: read_u64(self.bin, 8),
                p_vaddr: read_u64(self.bin, 16),
                p_paddr: read_u64(self.bin, 24),
                p_filesz: read_u64(self.bin, 32),
                p_memsz: read_u64(self.bin, 40),
                p_align: read_u64(self.bin, 48),
            };
            let ghost old_bin = self.bin@;
            let ghost old_num = self.ph_num as int;
            let e = self.ph_entsize;
            self.bin = slice_subrange(self.bin, e, self.bin.len());
            self.ph_num = self.ph_num - 1;
            proof {
                let eint = e as int;
                assert((old_num - 1) * eint == old_num * eint - eint) by (nonlinear_arith);
                assert forall|i: int| 0 <= i < self.ph_num implies self@[i] == old(self)@.skip(1)[i]
                    by {
                    assert((i + 1) * eint == i * eint + eint) by (nonlinear_arith);
                    assert(i * eint >= 0) by (nonlinear_arith)
                        requires i >= 0, eint >= 0;
                    assert((i + 1) * eint <= (old_num - 1) * eint) by (nonlinear_arith)
                        requires 0 <= i < old_num - 1, eint >= 0;
                    lemma_phdr_shift(old_bin, eint, old_bin.len() as int, i * eint);
                }
                assert(self@ =~= old(self)@.skip(1));
                assert(spec_phdr(old_bin, 0) == old(self)@[0]);
            }
            Some(phdr)
        } else {
            None
        }
    }
}


/// A segment that must be copied into memory before control transfer.
pub open spec fn loadable(p: Elf64Phdr) -> bool {
    p.p_type == Elf64Phdr::PT_LOAD
}

/// The segment's fields are consistent with an image of `blen` bytes: the
/// file-resident part fits the memory footprint and lies inside the image,
/// and the memory range fits the 64-bit address space.
pub open spec fn seg_ok(p: Elf64Phdr, blen: int) -> bool {
    &&& p.p_filesz <= p.p_memsz
    &&& p.p_offset + p.p_filesz <= blen
    &&& p.p_vaddr + p.p_memsz <= u64::MAX
}

/// The walk over a table prefix: the running span over the loadable segments
/// seen so far (`None` before the first one), or `CorruptSegment` if an
/// inconsistent loadable segment was met.
pub open spec fn spec_walk(t: Seq<Elf64Phdr>, blen: int) -> Result<
    Option<Elf64ExpandInfo>,
    LoadError,
>
    decreases t.len(),
{
    if t.len() == 0 {
        Ok(None)
    } else {
        match spec_walk(t.drop_last(), blen) {
            Err(e) => Err(e),
            Ok(acc) => {
                let p = t.last();
                if !loadable(p) {
                    Ok(acc)
                } else if !seg_ok(p, blen) {
                    Err(LoadError::CorruptSegment)
                } else {
                    match acc {
                        None => Ok(
                            Some(
                                Elf64ExpandInfo {
                                    lower_addr: p.p_vaddr,
                                    upper_addr: (p.p_vaddr + p.p_memsz) as u64,
                                },
                            ),
                        ),
                        Some(info) => Ok(
                            Some(
                                Elf64ExpandInfo {
                                    lower_addr: if p.p_vaddr < info.lower_addr {
                                        p.p_vaddr
                                    } else {
                                        info.lower_addr
                                    },
                                    upper_addr: if info.upper_addr < p.p_vaddr + p.p_memsz {
                                        (p.p_vaddr + p.p_memsz) as u64
                                    } else {
                                        info.upper_addr
                                    },
                                },
                            ),
                        ),
                    }
                }
            },
        }
    }
}

/// What computing the expansion span returns, as a function of the image
/// bytes alone.
pub open spec fn spec_expand_info(s: Seq<u8>) -> Result<Elf64ExpandInfo, LoadError> {
    if !table_in_bounds(s) {
        Err(LoadError::InvalidFormat)
    } else {
        match spec_walk(spec_table(s), s.len() as int) {
            Err(e) => Err(e),
            Ok(None) => Err(LoadError::NoLoadableSegments),
            Ok(Some(info)) => Ok(info),
        }
    }
}

/// Once the walk has failed on a prefix, the walk over the whole table fails
/// the same way.
proof fn lemma_walk_err_persists(t: Seq<Elf64Phdr>, blen: int, j: int)
    requires
        0 <= j <= t.len(),
        spec_walk(t.take(j), blen) is Err,
    ensures
        spec_walk(t, blen) == spec_walk(t.take(j), blen),
    decreases t.len() - j,
{
    if j < t.len() {
        assert(t.take(j + 1).drop_last() =~= t.take(j));
        lemma_walk_err_persists(t, blen, j + 1);
    } else {
        assert(t.take(j) =~= t);
    }
}

/// Properties of the segment walk. It fails exactly when some loadable
/// segment is inconsistent; it reports `None` exactly when the table has no
/// loadable segment; and otherwise the pair it returns is the tight span:
/// a bound on every loadable segment, attained on both sides.
pub proof fn lemma_walk_props(t: Seq<Elf64Phdr>, blen: int)
    ensures
        (spec_walk(t, blen) is Err) <==> exists|i: int|
            0 <= i < t.len() && loadable(#[trigger] t[i]) && !seg_ok(t[i], blen),
        spec_walk(t, blen) is Err ==> spec_walk(t, blen) == Err::<
            Option<Elf64ExpandInfo>,
            LoadError,
        >(LoadError::CorruptSegment),
        spec_walk(t, blen) == Ok::<Option<Elf64ExpandInfo>, LoadError>(None) <==> forall|i: int|
            0 <= i < t.len() ==> !loadable(#[trigger] t[i]),
        spec_walk(t, blen) matches Ok(Some(info)) ==> {
            &&& forall|i: int|
                0 <= i < t.len() && loadable(#[trigger] t[i]) ==> seg_ok(t[i], blen)
            &&& forall|i: int|
                0 <= i < t.len() && loadable(#[trigger] t[i]) ==> info.lower_addr <= t[i].p_vaddr
                    && t[i].p_vaddr + t[i].p_memsz <= info.upper_addr
            &&& exists|i: int|
                0 <= i < t.len() && loadable(#[trigger] t[i]) && info.lower_addr == t[i].p_vaddr
            &&& exists|i: int|
                0 <= i < t.len() && loadable(#[trigger] t[i]) && info.upper_addr == t[i].p_vaddr
                    + t[i].p_memsz
            &&& info.lower_addr <= info.upper_addr
        },
    decreases t.len(),
{
    if t.len() > 0 {
        let prefix = t.drop_last();
        lemma_walk_props(prefix, blen);
        assert(forall|i: int| 0 <= i < prefix.len() ==> prefix[i] == #[trigger] t[i]);
        let p = t.last();
        assert(p == t[t.len() - 1]);
        if spec_walk(prefix, blen) is Err {
            let i = choose|i: int|
                0 <= i < prefix.len() && loadable(#[trigger] prefix[i]) && !seg_ok(
                    prefix[i],
                    blen,
                );
            assert(0 <= i < t.len() && loadable(t[i]) && !seg_ok(t[i], blen));
        } else {
            if loadable(p) && !seg_ok(p, blen) {
                assert(spec_walk(t, blen) is Err);
            }
        }
    }
}

/// The two rejections of the span computation, exactly: an image with an
/// in-bounds table fails as corrupt exactly when some loadable segment is
/// inconsistent, and as unbootable exactly when it has no loadable segment.
pub proof fn lemma_expand_info_errors(s: Seq<u8>)
    requires
        table_in_bounds(s),
    ensures
        spec_expand_info(s) == Err::<Elf64ExpandInfo, LoadError>(LoadError::CorruptSegment)
            <==> exists|i: int|
            0 <= i < spec_table(s).len() && loadable(#[trigger] spec_table(s)[i]) && !seg_ok(
                spec_table(s)[i],
                s.len() as int,
            ),
        spec_expand_info(s) == Err::<Elf64ExpandInfo, LoadError>(LoadError::NoLoadableSegments)
            <==> forall|i: int|
            0 <= i < spec_table(s).len() ==> !loadable(#[trigger] spec_table(s)[i]),
{
    lemma_walk_props(spec_table(s), s.len() as int);
}

/// A successful span computation yields a well-ordered pair that tightly
/// covers every loadable segment of the image's table.
pub proof fn lemma_expand_info_bounds(s: Seq<u8>)
    ensures
        spec_expand_info(s) matches Ok(info) ==> {
            &&& info.lower_addr <= info.upper_addr
            &&& forall|i: int|
                0 <= i < spec_table(s).len() && loadable(#[trigger] spec_table(s)[i])
                    ==> info.lower_addr <= spec_table(s)[i].p_vaddr && spec_table(s)[i].p_vaddr
                    + spec_table(s)[i].p_memsz <= info.upper_addr
            &&& exists|i: int|
                0 <= i < spec_table(s).len() && loadable(#[trigger] spec_table(s)[i])
                    && info.lower_addr == spec_table(s)[i].p_vaddr
            &&& exists|i: int|
                0 <= i < spec_table(s).len() && loadable(#[trigger] spec_table(s)[i])
                    && info.upper_addr == spec_table(s)[i].p_vaddr + spec_table(s)[i].p_memsz
        },
{
    if table_in_bounds(s) {
        lemma_walk_props(spec_table(s), s.len() as int);
    }
}

/// Expansion preserves the destination's length.
pub proof fn lemma_image_len(t: Seq<Elf64Phdr>, s: Seq<u8>, lower: int, n: nat)
    ensures
        spec_image(t, s, lower, n).len() == n,
    decreases t.len(),
{
    if t.len() > 0 {
        lemma_image_len(t.drop_last(), s, lower, n);
    }
}

/// An image whose table has no loadable segment expands to all zeroes.
proof fn lemma_image_no_loadable(t: Seq<Elf64Phdr>, s: Seq<u8>, lower: int, n: nat)
    requires
        forall|i: int| 0 <= i < t.len() ==> !loadable(#[trigger] t[i]),
    ensures
        spec_image(t, s, lower, n) == Seq::new(n, |i: int| 0u8),
    decreases t.len(),
{
    if t.len() > 0 {
        assert(forall|i: int|
            0 <= i < t.drop_last().len() ==> t.drop_last()[i] == #[trigger] t[i]);
        lemma_image_no_loadable(t.drop_last(), s, lower, n);
        assert(!loadable(t.last()));
    }
}

/// Round trip for a single-segment image: when exactly one table entry is
/// loadable, expansion relative to that segment's own virtual address puts
/// the segment's file-resident bytes at the start of the destination and
/// zero in every other position.
pub proof fn lemma_single_segment_image(t: Seq<Elf64Phdr>, s: Seq<u8>, k: int, n: nat)
    requires
        0 <= k < t.len(),
        loadable(t[k]),
        forall|i: int| 0 <= i < t.len() && i != k ==> !loadable(#[trigger] t[i]),
        t[k].p_filesz <= t[k].p_memsz,
        t[k].p_offset + t[k].p_filesz <= s.len(),
        n >= t[k].p_memsz,
    ensures
        spec_image(t, s, t[k].p_vaddr as int, n).len() == n,
        forall|i: int|
            0 <= i < t[k].p_filesz ==> spec_image(t, s, t[k].p_vaddr as int, n)[i] == s[t[k].p_offset
                + i],
        forall|i: int|
            t[k].p_filesz <= i < n ==> spec_image(t, s, t[k].p_vaddr as int, n)[i] == 0u8,
    decreases t.len(),
{
    let lower = t[k].p_vaddr as int;
    if k == t.len() - 1 {
        assert(forall|i: int|
            0 <= i < t.drop_last().len() ==> t.drop_last()[i] == #[trigger] t[i]);
        lemma_image_no_loadable(t.drop_last(), s, lower, n);
        assert(t.last() == t[k]);
    } else {
        assert(forall|i: int|
            0 <= i < t.drop_last().len() ==> t.drop_last()[i] == #[trigger] t[i]);
        assert(!loadable(t.last()));
        lemma_single_segment_image(t.drop_last(), s, k, n);
    }
}

/// Computing the span twice over the same bytes yields identical results:
/// the computation is a pure function of the image bytes.
pub proof fn lemma_expand_info_pure(
    s: Seq<u8>,
    r1: Result<Elf64ExpandInfo, LoadError>,
    r2: Result<Elf64ExpandInfo, LoadError>,
)
    requires
        r1 == spec_expand_info(s),
        r2 == spec_expand_info(s),
    ensures
        r1 == r2,
{
}

} // verus!
