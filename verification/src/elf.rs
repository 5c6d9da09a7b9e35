//! ELF image parsing for the first user-space programs.
//!
//! The ELF format itself is parsed by the `xmas-elf` crate; the library
//! relies on it through the one trusted wrapper below and names its result,
//! since what an ELF image parses to is a function of its bytes alone. What
//! the kernel does with the parsed program headers is verified logic.

use vstd::prelude::*;

verus! {

/// One program header of an ELF image, as plain values: where the segment
/// loads, how big it is in memory and in the file, where its file bytes
/// start, its protection flags, and whether it is a loadable segment.
#[derive(Clone, Copy, Debug, PartialEq, Eq, Structural)]
pub struct ElfSegment {
    pub vaddr: u64,
    pub mem_size: u64,
    pub offset: u64,
    pub file_size: u64,
    pub read: bool,
    pub write: bool,
    pub execute: bool,
    pub load: bool,
}

/// What an ELF image parses to: its entry point and its program headers,
/// or nothing when the bytes are not a well-formed ELF image. The result
/// depends on the bytes alone.
pub uninterp spec fn elf_info_of(image: Seq<u8>) -> Option<(u64, Seq<ElfSegment>)>;

/// Little-endian 16-bit value at `off` of an image.
pub open spec fn le16_at(image: Seq<u8>, off: int) -> int {
    image[off] + 0x100 * image[off + 1]
}

/// Little-endian 64-bit value at `off` of an image.
pub open spec fn le64_at(image: Seq<u8>, off: int) -> int {
    image[off] + 0x100 * image[off + 1] + 0x10000 * image[off + 2] + 0x100_0000 * image[off + 3]
        + 0x1_0000_0000 * image[off + 4] + 0x100_0000_0000 * image[off + 5] + 0x1_0000_0000_0000
        * image[off + 6] + 0x100_0000_0000_0000 * image[off + 7]
}

/// The bytes-level conditions under which the parser below is defined: a
/// little-endian 64-bit ELF header is present, and the program-header table
/// it announces lies within the image, with the 56-byte entry size of that
/// class and a word-aligned offset. Parsing an image outside these
/// conditions is refused before the parser is reached.
pub open spec fn elf_image_wf(image: Seq<u8>) -> bool {
    &&& image.len() >= 0x40
    &&& image[0] == 0x7f && image[1] == 0x45 && image[2] == 0x4c && image[3] == 0x46
    &&& image[4] == 2
    &&& image[5] == 1
    &&& le16_at(image, 0x36) == 56
    &&& le64_at(image, 0x20) % 8 == 0
    &&& le64_at(image, 0x20) + le16_at(image, 0x38) * 56 <= image.len()
}

/// Checks `elf_image_wf` on an image.
pub fn elf_image_check(image: &Vec<u8>) -> (r: bool)
    ensures
        r == elf_image_wf(image@),
{
    if image.len() < 0x40 {
        return false;
    }
    if !(image[0] == 0x7f && image[1] == 0x45 && image[2] == 0x4c && image[3] == 0x46) {
        return false;
    }
    if !(image[4] == 2 && image[5] == 1) {
        return false;
    }
    let phentsize = (image[0x36] as u64) + 0x100 * (image[0x37] as u64);
    if phentsize != 56 {
        return false;
    }
    let mut phoff: u64 = 0;
    let mut k: usize = 0;
    while k < 8
        invariant
            k <= 8,
            image@.len() >= 0x40,
            phoff == partial_le64(image@, 0x20, k as int),
        decreases 8 - k,
    {
        proof {
            lemma_partial_le64_step(image@, 0x20, k as int);
        }
        phoff = phoff + (image[0x20 + k] as u64) * pow256_exec(k);
        k += 1;
    }
    proof {
        lemma_partial_is_le64(image@, 0x20);
    }
    let phnum = (image[0x38] as u64) + 0x100 * (image[0x39] as u64);
    if phoff % 8 != 0 {
        return false;
    }
    if phoff > image.len() as u64 {
        return false;
    }
    if phnum * 56 > image.len() as u64 - phoff {
        return false;
    }
    true
}

/// The low `k` bytes of the little-endian 64-bit value at `off`.
pub open spec fn partial_le64(image: Seq<u8>, off: int, k: int) -> int
    decreases k,
{
    if k <= 0 {
        0
    } else {
        partial_le64(image, off, k - 1) + image[off + k - 1] * pow256_spec(k - 1)
    }
}

/// 256 to the power `k`.
pub open spec fn pow256_spec(k: int) -> int
    decreases k,
{
    if k <= 0 {
        1
    } else {
        0x100 * pow256_spec(k - 1)
    }
}

/// 256 to the power `k`, for `k` below eight.
pub fn pow256_exec(k: usize) -> (r: u64)
    requires
        k < 8,
    ensures
        r == pow256_spec(k as int),
{
    let mut r: u64 = 1;
    let mut i: usize = 0;
    while i < k
        invariant
            i <= k < 8,
            r == pow256_spec(i as int),
        decreases k - i,
    {
        proof {
            lemma_pow256_bound(i as int);
        }
        r = r * 0x100;
        i += 1;
    }
    r
}

proof fn lemma_pow256_bound(k: int)
    requires
        0 <= k <= 8,
    ensures
        pow256_spec(k) == (if k == 0 {
            1int
        } else if k == 1 {
            0x100int
        } else if k == 2 {
            0x1_0000int
        } else if k == 3 {
            0x100_0000int
        } else if k == 4 {
            0x1_0000_0000int
        } else if k == 5 {
            0x100_0000_0000int
        } else if k == 6 {
            0x1_0000_0000_0000int
        } else if k == 7 {
            0x100_0000_0000_0000int
        } else {
            0x1_0000_0000_0000_0000int
        }),
    decreases k,
{
    if k > 0 {
        lemma_pow256_bound(k - 1);
    }
}

/// Adding byte `k` extends the partial little-endian value, which stays
/// below 256 to the power `k + 1`.
proof fn lemma_partial_le64_step(image: Seq<u8>, off: int, k: int)
    requires
        0 <= k < 8,
        0 <= off,
        off + 8 <= image.len(),
    ensures
        partial_le64(image, off, k + 1) == partial_le64(image, off, k) + image[off + k]
            * pow256_spec(k),
        0 <= partial_le64(image, off, k) < pow256_spec(k),
        0 <= partial_le64(image, off, k + 1) < pow256_spec(k + 1),
        pow256_spec(k + 1) <= 0x1_0000_0000_0000_0000,
    decreases k,
{
    lemma_pow256_bound(k);
    lemma_pow256_bound(k + 1);
    if k > 0 {
        lemma_partial_le64_step(image, off, k - 1);
    }
    let b = image[off + k] as int;
    let p = pow256_spec(k);
    assert(0 <= b * p <= 0xff * p) by (nonlinear_arith)
        requires
            0 <= b <= 0xff,
            0 < p,
    ;
    assert(partial_le64(image, off, k) + b * p < 0x100 * p) by (nonlinear_arith)
        requires
            0 <= partial_le64(image, off, k) < p,
            b * p <= 0xff * p,
            0 < p,
    ;
}

/// The eight-byte partial value is the little-endian 64-bit read.
proof fn lemma_partial_is_le64(image: Seq<u8>, off: int)
    requires
        0 <= off,
        off + 8 <= image.len(),
    ensures
        partial_le64(image, off, 8) == le64_at(image, off),
{
    lemma_partial_le64_step(image, off, 0);
    lemma_partial_le64_step(image, off, 1);
    lemma_partial_le64_step(image, off, 2);
    lemma_partial_le64_step(image, off, 3);
    lemma_partial_le64_step(image, off, 4);
    lemma_partial_le64_step(image, off, 5);
    lemma_partial_le64_step(image, off, 6);
    lemma_partial_le64_step(image, off, 7);
    lemma_pow256_bound(0);
    lemma_pow256_bound(1);
    lemma_pow256_bound(2);
    lemma_pow256_bound(3);
    lemma_pow256_bound(4);
    lemma_pow256_bound(5);
    lemma_pow256_bound(6);
    lemma_pow256_bound(7);
    assert(partial_le64(image, off, 0) == 0);
    assert(partial_le64(image, off, 1) == image[off] * 1);
    assert(partial_le64(image, off, 2) == partial_le64(image, off, 1) + image[off + 1] * 0x100);
    assert(partial_le64(image, off, 3) == partial_le64(image, off, 2) + image[off + 2] * 0x1_0000);
    assert(partial_le64(image, off, 4) == partial_le64(image, off, 3) + image[off + 3]
        * 0x100_0000);
    assert(partial_le64(image, off, 5) == partial_le64(image, off, 4) + image[off + 4]
        * 0x1_0000_0000);
    assert(partial_le64(image, off, 6) == partial_le64(image, off, 5) + image[off + 5]
        * 0x100_0000_0000);
    assert(partial_le64(image, off, 7) == partial_le64(image, off, 6) + image[off + 6]
        * 0x1_0000_0000_0000);
    assert(partial_le64(image, off, 8) == partial_le64(image, off, 7) + image[off + 7]
        * 0x100_0000_0000_0000);
}

/// Relies on `xmas_elf::ElfFile::new` to validate the image and on the
/// header and program-header accessors to read the entry point and each
/// segment's addresses, sizes and flags; every header is handed out as
/// plain values, loadable ones marked. The precondition keeps out the
/// images on which the parser's program-header slicing or its size and
/// alignment assertions would not return; the one assumption beyond the
/// bytes is that the heap serves the image buffer at least word-aligned.
/// The accessors read multi-byte fields in the host's byte order, while the
/// admitted images carry the little-endian class: `elf_info_of` names what
/// they return on the little-endian hosts this kernel model targets.
#[verifier::external_body]
pub fn parse_elf(image: &Vec<u8>) -> (r: Option<(u64, Vec<ElfSegment>)>)
    requires
        elf_image_wf(image@),
    ensures
        r is Some <==> elf_info_of(image@) is Some,
        r matches Some(info) ==> {
            &&& info.0 == elf_info_of(image@)->Some_0.0
            &&& info.1@ == elf_info_of(image@)->Some_0.1
        },
{
    let f = match xmas_elf::ElfFile::new(image.as_slice()) {
        Ok(f) => f,
        Err(_) => return None,
    };
    let mut segments: Vec<ElfSegment> = Vec::new();
    for ph in f.program_iter() {
        let fl = ph.flags();
        segments.push(ElfSegment {
            vaddr: ph.virtual_addr(), mem_size: ph.mem_size(), offset: ph.offset(),
            file_size: ph.file_size(), read: fl.is_read(), write: fl.is_write(),
            execute: fl.is_execute(),
            load: matches!(ph.get_type(), Ok(xmas_elf::program::Type::Load)),
        });
    }
    Some((f.header.pt2.entry_point(), segments))
}

/// The protection a loadable segment's flags ask for.
pub fn elf_phdr_flags_to_prot(seg: &ElfSegment) -> (r: crate::vm::VMProt)
    ensures
        r == (crate::vm::VMProt { read: seg.read, write: seg.write, execute: seg.execute }),
{
    crate::vm::VMProt { read: seg.read, write: seg.write, execute: seg.execute }
}

} // verus!
