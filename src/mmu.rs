//! A software MMU with byte-level permissions, detection of reads of
//! uninitialised memory, and dirty-block tracking for fast snapshot restore.
use vstd::prelude::*;
use crate::primitive::{Primitive, le_bytes, le_value};

verus! {

/// Size in bytes of the blocks that dirty tracking and reset work on.
pub const DIRTY_BLOCK_SIZE: usize = 4096;

/// Permission bit: the byte may be read.
pub const PERM_READ: u8 = 1;

/// Permission bit: the byte may be written.
pub const PERM_WRITE: u8 = 2;

/// Permission bit: the byte may be fetched as an instruction.
pub const PERM_EXEC: u8 = 4;

/// Permission bit: the byte becomes readable once it is first written.
pub const PERM_RAW: u8 = 8;

/// A set of permission bits for one byte of guest memory.
#[derive(Clone, Copy, Debug, PartialEq, Eq, Structural)]
pub struct Perm(pub u8);

/// A guest virtual address.
#[derive(Clone, Copy, Debug, PartialEq, Eq, Structural)]
pub struct VirtAddr(pub usize);

/// One section of a program image to place in guest memory.
#[derive(Clone, Copy, Debug, PartialEq, Eq, Structural)]
pub struct Sections {
    pub file_offset: usize,
    pub virt_addr: VirtAddr,
    pub file_size: usize,
    pub mem_size: usize,
    pub permissions: Perm,
}

/// Why guest execution stopped.
#[derive(Clone, Copy, Debug, PartialEq, Eq, Structural)]
pub enum VmExit {
    /// The guest asked to exit.
    Exit,
    /// An access reached past the end of guest memory (address, size).
    AddressMiss(VirtAddr, usize),
    /// The end of an accessed range does not fit in an address.
    AddressIntegerOverflow,
    /// The byte at this address lacked a permission that a read needs.
    ReadFault(VirtAddr),
    /// The byte at this address was not writable.
    WriteFault(VirtAddr),
    /// A program break below the current one was requested.
    NegativeBreak,
    /// A system call number that is not emulated.
    UnknownSyscall(u64),
}

/// Whether a permission byte holds every bit of `need`.
pub open spec fn has_perm(p: Perm, need: u8) -> bool {
    p.0 & need == need
}

/// The permission a byte has after it has been written: a byte marked
/// read-after-write becomes readable as well.
pub open spec fn promoted(p: Perm) -> Perm {
    if p.0 & PERM_RAW != 0 {
        Perm(p.0 | PERM_READ)
    } else {
        p
    }
}

/// The lowest index in `[i, end)` whose permission lacks a bit of `need`, or
/// `end` where there is none.
pub open spec fn first_lacking(perms: Seq<Perm>, i: int, end: int, need: u8) -> int
    decreases end - i,
{
    if i >= end {
        end
    } else if !has_perm(perms[i], need) {
        i
    } else {
        first_lacking(perms, i + 1, end, need)
    }
}

/// The outcome of checking an access of `size` bytes at `addr` for the
/// permission bits `need`; `write` selects the kind of fault reported.
pub open spec fn check_access(perms: Seq<Perm>, addr: usize, size: usize, need: u8, write: bool) -> Result<(), VmExit> {
    if addr + size > usize::MAX {
        Err(VmExit::AddressIntegerOverflow)
    } else if addr + size > perms.len() {
        Err(VmExit::AddressMiss(VirtAddr(addr), size))
    } else {
        let f = first_lacking(perms, addr as int, addr + size, need);
        if f < addr + size {
            if write {
                Err(VmExit::WriteFault(VirtAddr(f as usize)))
            } else {
                Err(VmExit::ReadFault(VirtAddr(f as usize)))
            }
        } else {
            Ok(())
        }
    }
}

/// The index of the dirty block that holds byte `i`.
pub open spec fn block_of(i: int) -> int {
    i / 4096
}

/// Whether bit `j` of `w` is set.
pub open spec fn bit_set(w: u64, j: int) -> bool {
    w & (1u64 << (j as u64)) != 0
}

proof fn lemma_bit_or(w: u64, i: u64, j: u64)
    requires
        i < 64,
        j < 64,
    ensures
        ((w | (1u64 << i)) & (1u64 << j) != 0) == ((w & (1u64 << j) != 0) || i == j),
{
    assert(((w | (1u64 << i)) & (1u64 << j) != 0) == ((w & (1u64 << j) != 0) || i == j))
        by (bit_vector)
        requires i < 64, j < 64;
}

proof fn lemma_bit_zero(j: u64)
    requires
        j < 64,
    ensures
        (0u64 & (1u64 << j)) == 0,
{
    assert((0u64 & (1u64 << j)) == 0) by (bit_vector);
}

proof fn lemma_block_bounds(i: int, b: int)
    requires
        0 <= i,
        0 <= b,
    ensures
        (b * 4096 <= i < b * 4096 + 4096) <==> block_of(i) == b,
{
    vstd::arithmetic::div_mod::lemma_fundamental_div_mod(i, 4096);
}

proof fn lemma_word_bit(b: int, w: int, j: int)
    requires
        0 <= b,
        0 <= w,
        0 <= j < 64,
    ensures
        (w * 64 + j == b) <==> (w == b / 64 && j == b % 64),
{
    vstd::arithmetic::div_mod::lemma_fundamental_div_mod(b, 64);
}

/// A guest address space: memory, one permission byte per memory byte, the
/// blocks written since the last reset, and a bump allocator.
pub struct Mmu {
    /// Guest memory; offset 0 is guest address 0.
    memory: Vec<u8>,
    /// The permission of each byte of `memory`.
    permissions: Vec<Perm>,
    /// The dirty blocks, in the order they were first touched.
    dirty: Vec<usize>,
    /// One bit per block: set exactly for the blocks listed in `dirty`.
    dirty_bitmap: Vec<u64>,
    /// Base address of the next allocation.
    cur_alloc: VirtAddr,
}

/// Number of dirty blocks of an address space of `len` bytes.
pub open spec fn block_count(len: int) -> int {
    (len + 4095) / 4096
}

/// `mem` with `data` written over it from index `addr` on.
pub open spec fn spliced(mem: Seq<u8>, addr: int, data: Seq<u8>) -> Seq<u8> {
    Seq::new(mem.len(), |i: int| if addr <= i < addr + data.len() { data[i - addr] } else { mem[i] })
}

/// `perms` with every entry in `[addr, addr + size)` replaced by `p`.
pub open spec fn filled(perms: Seq<Perm>, addr: int, size: int, p: Perm) -> Seq<Perm> {
    Seq::new(perms.len(), |i: int| if addr <= i < addr + size { p } else { perms[i] })
}

/// `perms` with every entry in `[addr, addr + size)` promoted as by a write.
pub open spec fn promoted_range(perms: Seq<Perm>, addr: int, size: int) -> Seq<Perm> {
    Seq::new(perms.len(), |i: int| if addr <= i < addr + size { promoted(perms[i]) } else { perms[i] })
}

/// Whether `x` occurs among the first `k` entries of `s`.
pub open spec fn listed_before(s: Seq<usize>, k: int, x: int) -> bool {
    exists|m: int| 0 <= m < k && s[m] as int == x
}

/// Whether some block among the first `k` entries of `s` has its bitmap bit
/// in word `w`.
pub open spec fn word_listed_before(s: Seq<usize>, k: int, w: int) -> bool {
    exists|m: int| 0 <= m < k && #[trigger] s[m] / 64 == w
}

/// Whether `sec` lies within an image of `image_len` bytes and a space of
/// `len` bytes, with no more file bytes than memory bytes.
pub open spec fn section_fits(sec: Sections, len: int, image_len: int) -> bool {
    &&& sec.file_size <= sec.mem_size
    &&& sec.virt_addr.0 + sec.mem_size <= len
    &&& sec.file_offset + sec.file_size <= image_len
}

/// The index of the first section that does not fit, or `secs.len()`.
pub open spec fn first_unfit(secs: Seq<Sections>, len: int, image_len: int) -> int
    decreases secs.len(),
{
    if secs.len() == 0 {
        0
    } else if !section_fits(secs[0], len, image_len) {
        0
    } else {
        1 + first_unfit(secs.drop_first(), len, image_len)
    }
}

/// `mem` after loading `sec`: its file bytes copied from `image`, the rest of
/// its memory zero.
pub open spec fn section_mem(mem: Seq<u8>, image: Seq<u8>, sec: Sections) -> Seq<u8> {
    let va = sec.virt_addr.0 as int;
    Seq::new(mem.len(), |i: int|
        if va <= i < va + sec.file_size {
            image[sec.file_offset + (i - va)]
        } else if va + sec.file_size <= i < va + sec.mem_size {
            0u8
        } else {
            mem[i]
        })
}

/// Memory after loading each section of `secs` in order.
pub open spec fn loaded_mem(mem: Seq<u8>, image: Seq<u8>, secs: Seq<Sections>) -> Seq<u8>
    decreases secs.len(),
{
    if secs.len() == 0 {
        mem
    } else {
        section_mem(loaded_mem(mem, image, secs.drop_last()), image, secs.last())
    }
}

/// Permissions after loading each section of `secs` in order.
pub open spec fn loaded_perms(perms: Seq<Perm>, secs: Seq<Sections>) -> Seq<Perm>
    decreases secs.len(),
{
    if secs.len() == 0 {
        perms
    } else {
        let sec = secs.last();
        filled(loaded_perms(perms, secs.drop_last()), sec.virt_addr.0 as int, sec.mem_size as int, sec.permissions)
    }
}

proof fn lemma_first_unfit(secs: Seq<Sections>, len: int, image_len: int)
    ensures
        0 <= first_unfit(secs, len, image_len) <= secs.len(),
        forall|k: int| 0 <= k < first_unfit(secs, len, image_len) ==> section_fits(#[trigger] secs[k], len, image_len),
        first_unfit(secs, len, image_len) < secs.len() ==> !section_fits(secs[first_unfit(secs, len, image_len)], len, image_len),
    decreases secs.len(),
{
    if secs.len() > 0 && section_fits(secs[0], len, image_len) {
        lemma_first_unfit(secs.drop_first(), len, image_len);
        assert forall|k: int| 0 <= k < first_unfit(secs, len, image_len) implies section_fits(#[trigger] secs[k], len, image_len) by {
            if k > 0 {
                assert(secs[k] == secs.drop_first()[k - 1]);
            }
        }
    }
}

/// Where every byte of `[i, end)` holds `need`, no byte lacks it.
pub proof fn lemma_all_have(perms: Seq<Perm>, i: int, end: int, need: u8)
    requires
        forall|k: int| i <= k < end ==> has_perm(#[trigger] perms[k], need),
    ensures
        first_lacking(perms, i, end, need) == end || (i > end && first_lacking(perms, i, end, need) == end),
    decreases end - i,
{
    if i < end {
        lemma_all_have(perms, i + 1, end, need);
    }
}

/// `a` to `c` tracks its changes where `a` to `b` and `b` to `c` do.
pub proof fn lemma_tracked_trans(a: &Mmu, b: &Mmu, c: &Mmu)
    requires
        a.changes_tracked(b),
        b.changes_tracked(c),
    ensures
        a.changes_tracked(c),
{
    assert forall|i: int| 0 <= i < a.mem().len() && (c.mem()[i] != a.mem()[i] || c.perms()[i] != a.perms()[i])
        implies c.byte_dirty(i) by {
        if b.mem()[i] != a.mem()[i] || b.perms()[i] != a.perms()[i] {
            assert(b.byte_dirty(i));
        }
    }
}

proof fn lemma_block_in_range(i: int, len: int)
    requires
        0 <= i < len,
    ensures
        0 <= block_of(i) < block_count(len),
        block_of(i) * 4096 <= i,
{
    vstd::arithmetic::div_mod::lemma_fundamental_div_mod(i, 4096);
    vstd::arithmetic::div_mod::lemma_fundamental_div_mod(len + 4095, 4096);
}

/// Applies the read-after-write rule to the permission of a byte that is
/// being written: a byte marked `PERM_RAW` becomes readable too.
pub fn promote_on_write(p: Perm) -> (r: Perm)
    ensures
        r == promoted(p),
{
    if p.0 & PERM_RAW != 0 {
        Perm(p.0 | PERM_READ)
    } else {
        p
    }
}

fn copy_vec<T: Copy>(v: &Vec<T>) -> (r: Vec<T>)
    ensures
        r@ == v@,
{
    let mut r: Vec<T> = Vec::with_capacity(v.len());
    let mut i: usize = 0;
    while i < v.len()
        invariant
            i <= v@.len(),
            r@ == v@.take(i as int),
        decreases v@.len() - i,
    {
        r.push(v[i]);
        i += 1;
        assert(r@ =~= v@.take(i as int));
    }
    assert(v@.take(v@.len() as int) =~= v@);
    r
}

/// `n` zero bytes.
pub fn zeroed(n: usize) -> (r: Vec<u8>)
    ensures
        r@ == Seq::new(n as nat, |i: int| 0u8),
{
    filled_vec(0u8, n)
}

fn filled_vec<T: Copy>(x: T, n: usize) -> (r: Vec<T>)
    ensures
        r@ == Seq::new(n as nat, |i: int| x),
{
    let mut r: Vec<T> = Vec::with_capacity(n);
    let mut i: usize = 0;
    while i < n
        invariant
            i <= n,
            r@ == Seq::new(i as nat, |k: int| x),
        decreases n - i,
    {
        r.push(x);
        i += 1;
        assert(r@ =~= Seq::new(i as nat, |k: int| x));
    }
    r
}

fn empty_bitmap(len: usize) -> (r: Vec<u64>)
    ensures
        r@.len() == len / 4096 / 64 + 1,
        forall|w: int, j: int| 0 <= w < r@.len() && 0 <= j < 64 ==> !(#[trigger] bit_set(r@[w], j)),
{
    let r = filled_vec(0u64, len / DIRTY_BLOCK_SIZE / 64 + 1);
    assert forall|w: int, j: int| 0 <= w < r@.len() && 0 <= j < 64 implies !(#[trigger] bit_set(r@[w], j)) by {
        lemma_bit_zero(j as u64);
    }
    r
}

impl Mmu {
    /// The guest memory.
    pub closed spec fn mem(&self) -> Seq<u8> {
        self.memory@
    }

    /// The permission of each byte.
    pub closed spec fn perms(&self) -> Seq<Perm> {
        self.permissions@
    }

    /// The base of the next allocation.
    pub closed spec fn cursor(&self) -> usize {
        self.cur_alloc.0
    }

    /// The dirty blocks, in the order they were first touched.
    pub closed spec fn dirty_list(&self) -> Seq<usize> {
        self.dirty@
    }

    /// Internal consistency: equal lengths, and a bitmap that agrees with the
    /// duplicate-free dirty list.
    pub closed spec fn wf(&self) -> bool {
        &&& self.memory@.len() == self.permissions@.len()
        &&& self.memory@.len() <= usize::MAX
        &&& self.dirty_bitmap@.len() == self.memory@.len() / 4096 / 64 + 1
        &&& self.dirty@.no_duplicates()
        &&& forall|k: int| 0 <= k < self.dirty@.len() ==> (#[trigger] self.dirty@[k]) < block_count(self.memory@.len() as int)
        &&& forall|w: int, j: int| 0 <= w < self.dirty_bitmap@.len() && 0 <= j < 64 ==>
            (#[trigger] bit_set(self.dirty_bitmap@[w], j) <==> self.dirty@.contains((w * 64 + j) as usize))
    }

    /// Whether block `b` has been touched since the last reset.
    pub open spec fn block_dirty(&self, b: int) -> bool {
        self.dirty_list().contains(b as usize)
    }

    /// Whether byte `i` lies in a dirty block.
    pub open spec fn byte_dirty(&self, i: int) -> bool {
        self.block_dirty(block_of(i))
    }

    /// Whether `self` equals `snap` on every byte outside its dirty blocks:
    /// what makes a reset to `snap` restore all of `snap`.
    pub open spec fn agrees_outside_dirty(&self, snap: &Mmu) -> bool {
        &&& self.mem().len() == snap.mem().len()
        &&& forall|i: int| 0 <= i < self.mem().len() && !self.byte_dirty(i) ==>
            self.mem()[i] == snap.mem()[i] && self.perms()[i] == snap.perms()[i]
    }

    /// Whether going from `self` to `after` kept every dirty block dirty and
    /// changed bytes or permissions only inside blocks that `after` marks dirty.
    pub open spec fn changes_tracked(&self, after: &Mmu) -> bool {
        &&& after.mem().len() == self.mem().len()
        &&& after.perms().len() == self.perms().len()
        &&& forall|b: int| self.block_dirty(b) ==> after.block_dirty(b)
        &&& forall|i: int| 0 <= i < self.mem().len() && (after.mem()[i] != self.mem()[i] || after.perms()[i] != self.perms()[i])
            ==> after.byte_dirty(i)
    }

    /// Whether `after` is `self` after a successful write of `data` at
    /// `addr`: the bytes replaced, read-after-write bytes made readable, the
    /// touched blocks dirty.
    pub open spec fn wrote(&self, addr: int, data: Seq<u8>, after: &Mmu) -> bool {
        &&& after.mem() == spliced(self.mem(), addr, data)
        &&& after.perms() == promoted_range(self.perms(), addr, data.len() as int)
        &&& after.cursor() == self.cursor()
        &&& self.changes_tracked(after)
        &&& forall|i: int| addr <= i < addr + data.len() ==> after.byte_dirty(i)
    }

    /// Whether `after` is `self` after loading `secs` from `image`: where
    /// every section fits, all of them are loaded in order; otherwise those
    /// before the first that does not fit are, and nothing more.
    pub open spec fn loaded(&self, image: Seq<u8>, secs: Seq<Sections>, after: &Mmu) -> bool {
        let done = secs.take(first_unfit(secs, self.mem().len() as int, image.len() as int));
        &&& after.mem() == loaded_mem(self.mem(), image, done)
        &&& after.perms() == loaded_perms(self.perms(), done)
        &&& after.cursor() == self.cursor()
        &&& self.changes_tracked(after)
    }

    /// A well-formed space has one permission per byte and fits in memory.
    pub proof fn lemma_sizes(&self)
        requires
            self.wf(),
        ensures
            self.perms().len() == self.mem().len(),
            self.mem().len() <= usize::MAX,
    {
    }

    /// Whether `self` is a space of `size` bytes as `new` makes it: all zero,
    /// no permission, no dirty block.
    pub open spec fn is_fresh(&self, size: usize) -> bool {
        &&& self.mem() == Seq::new(size as nat, |i: int| 0u8)
        &&& self.perms() == Seq::new(size as nat, |i: int| Perm(0))
        &&& self.dirty_list().len() == 0
    }

    /// Whether `copy` is a fork of `self`: the same memory, permissions and
    /// cursor, and no dirty block.
    pub open spec fn forked_into(&self, copy: &Mmu) -> bool {
        &&& copy.mem() == self.mem()
        &&& copy.perms() == self.perms()
        &&& copy.cursor() == self.cursor()
        &&& copy.dirty_list().len() == 0
    }

    /// Whether `after` is `self` after allocating `size` bytes at the cursor:
    /// the cursor advanced, the bytes writable and marked read-after-write.
    pub open spec fn allocated(&self, size: usize, after: &Mmu) -> bool {
        &&& after.cursor() == self.cursor() + size
        &&& after.mem() == self.mem()
        &&& after.perms() == filled(self.perms(), self.cursor() as int, size as int, Perm(PERM_RAW | PERM_WRITE))
        &&& self.changes_tracked(after)
    }

    /// Whether `after` is `self` reset to `other`: each byte of a dirty
    /// block, and its permission, taken from `other`, every other byte kept,
    /// no dirty block left, and `other`'s cursor.
    pub open spec fn restored(&self, other: &Mmu, after: &Mmu) -> bool {
        &&& after.dirty_list().len() == 0
        &&& after.cursor() == other.cursor()
        &&& after.mem().len() == self.mem().len()
        &&& after.perms().len() == self.perms().len()
        &&& forall|i: int| 0 <= i < self.mem().len() ==>
            after.mem()[i] == (if self.byte_dirty(i) { other.mem()[i] } else { self.mem()[i] })
        &&& forall|i: int| 0 <= i < self.mem().len() ==>
            after.perms()[i] == (if self.byte_dirty(i) { other.perms()[i] } else { self.perms()[i] })
    }

    /// Creates an address space of `size` bytes, all zero and without any
    /// permission, whose allocator starts at 0x1000.
    pub fn new(size: usize) -> (r: Mmu)
        ensures
            r.wf(),
            r.is_fresh(size),
            r.cursor() == 0x1000,
    {
        Mmu {
            memory: filled_vec(0u8, size),
            permissions: filled_vec(Perm(0), size),
            dirty: Vec::new(),
            dirty_bitmap: empty_bitmap(size),
            cur_alloc: VirtAddr(0x1000),
        }
    }

    /// Copies this address space: same memory, permissions and allocator,
    /// no dirty block. The copy serves as the snapshot that `reset` restores.
    pub fn fork(&self) -> (r: Mmu)
        requires
            self.wf(),
        ensures
            r.wf(),
            self.forked_into(&r),
    {
        Mmu {
            memory: copy_vec(&self.memory),
            permissions: copy_vec(&self.permissions),
            dirty: Vec::new(),
            dirty_bitmap: empty_bitmap(self.memory.len()),
            cur_alloc: self.cur_alloc,
        }
    }

    /// Checks that the `size` bytes at `addr` all hold the bits of `need`.
    fn check_range(&self, addr: VirtAddr, size: usize, need: u8, write: bool) -> (r: Result<(), VmExit>)
        requires
            self.wf(),
        ensures
            r == check_access(self.perms(), addr.0, size, need, write),
    {
        let end = match addr.0.checked_add(size) {
            Some(e) => e,
            None => return Err(VmExit::AddressIntegerOverflow),
        };
        if end > self.permissions.len() {
            return Err(VmExit::AddressMiss(addr, size));
        }
        let mut i = addr.0;
        while i < end
            invariant
                addr.0 <= i <= end,
                end == addr.0 + size,
                end <= self.permissions@.len(),
                first_lacking(self.perms(), addr.0 as int, end as int, need)
                    == first_lacking(self.perms(), i as int, end as int, need),
            decreases end - i,
        {
            if self.permissions[i].0 & need != need {
                if write {
                    return Err(VmExit::WriteFault(VirtAddr(i)));
                } else {
                    return Err(VmExit::ReadFault(VirtAddr(i)));
                }
            }
            i += 1;
        }
        Ok(())
    }

    /// Marks one block dirty, unless it already is.
    fn mark_block(&mut self, block: usize)
        requires
            old(self).wf(),
            block < block_count(old(self).mem().len() as int),
        ensures
            final(self).wf(),
            final(self).memory@ == old(self).memory@,
            final(self).permissions@ == old(self).permissions@,
            final(self).cur_alloc == old(self).cur_alloc,
            forall|x: usize| #[trigger] final(self).dirty@.contains(x) <==> (old(self).dirty@.contains(x) || x == block),
    {
        let idx = block / 64;
        let bit = block % 64;
        proof {
            let len = self.memory@.len() as int;
            vstd::arithmetic::div_mod::lemma_fundamental_div_mod(len + 4095, 4096);
            vstd::arithmetic::div_mod::lemma_fundamental_div_mod(len, 4096);
            vstd::arithmetic::div_mod::lemma_div_is_ordered(block as int, len / 4096, 64);
            lemma_word_bit(block as int, idx as int, bit as int);
        }
        let mask: u64 = 1u64 << (bit as u64);
        let w = self.dirty_bitmap[idx];
        if w & mask == 0 {
            proof {
                assert(!bit_set(w, bit as int));
                assert(!self.dirty@.contains(block));
            }
            self.dirty.push(block);
            self.dirty_bitmap.set(idx, w | mask);
            proof {
                assert forall|x: usize| #[trigger] self.dirty@.contains(x) <==> (old(self).dirty@.contains(x) || x == block) by {
                    if x == block {
                        assert(self.dirty@[self.dirty@.len() - 1] == x);
                    }
                    if old(self).dirty@.contains(x) {
                        let m = choose|m: int| 0 <= m < old(self).dirty@.len() && old(self).dirty@[m] == x;
                        assert(self.dirty@[m] == x);
                    }
                }
                assert forall|a: int, b: int| 0 <= a < self.dirty@.len() && 0 <= b < self.dirty@.len() && a != b
                    implies self.dirty@[a] != self.dirty@[b] by {
                    if a == self.dirty@.len() - 1 {
                        assert(old(self).dirty@.contains(self.dirty@[b]));
                    } else if b == self.dirty@.len() - 1 {
                        assert(old(self).dirty@.contains(self.dirty@[a]));
                    }
                }
                assert forall|w2: int, j: int| 0 <= w2 < self.dirty_bitmap@.len() && 0 <= j < 64 implies
                    (#[trigger] bit_set(self.dirty_bitmap@[w2], j) <==> self.dirty@.contains((w2 * 64 + j) as usize)) by {
                    lemma_word_bit(block as int, w2, j);
                    let len = self.memory@.len() as int;
                    vstd::arithmetic::div_mod::lemma_fundamental_div_mod(len / 4096, 64);
                    vstd::arithmetic::div_mod::lemma_fundamental_div_mod(len, 4096);
                    assert(w2 * 64 + j <= len / 4096 + 64);
                    let x = (w2 * 64 + j) as usize;
                    assert(self.dirty@.contains(x) <==> (old(self).dirty@.contains(x) || x == block));
                    if w2 == idx {
                        lemma_bit_or(w, bit as u64, j as u64);
                        assert(self.dirty_bitmap@[w2] == w | mask);
                        assert(bit_set(self.dirty_bitmap@[w2], j) <==> (bit_set(w, j) || bit == j));
                    } else {
                        assert(self.dirty_bitmap@[w2] == old(self).dirty_bitmap@[w2]);
                        assert(x != block);
                    }
                }
            }
        } else {
            proof {
                assert(bit_set(w, bit as int));
                assert(self.dirty@.contains(block));
            }
        }
    }

    /// Marks dirty every block that holds a byte of `[start, end)`.
    fn mark_dirty(&mut self, start: usize, end: usize)
        requires
            old(self).wf(),
            start < end <= old(self).mem().len(),
        ensures
            final(self).wf(),
            final(self).memory@ == old(self).memory@,
            final(self).permissions@ == old(self).permissions@,
            final(self).cur_alloc == old(self).cur_alloc,
            forall|b: int| old(self).block_dirty(b) ==> final(self).block_dirty(b),
            forall|i: int| start <= i < end ==> final(self).byte_dirty(i),
    {
        let first = start / DIRTY_BLOCK_SIZE;
        let last = (end - 1) / DIRTY_BLOCK_SIZE;
        proof {
            lemma_block_in_range(end - 1, self.memory@.len() as int);
        }
        let mut b = first;
        while b <= last
            invariant
                self.wf(),
                self.memory@ == old(self).memory@,
                self.permissions@ == old(self).permissions@,
                self.cur_alloc == old(self).cur_alloc,
                first <= b <= last + 1,
                first == start / 4096,
                last == (end - 1) / 4096,
                last < block_count(self.memory@.len() as int),
                forall|x: usize| #[trigger] self.dirty@.contains(x) <==> (old(self).dirty@.contains(x) || (first <= x < b)),
            decreases last + 1 - b,
        {
            self.mark_block(b);
            b += 1;
        }
        assert forall|i: int| start <= i < end implies self.byte_dirty(i) by {
            vstd::arithmetic::div_mod::lemma_div_is_ordered(start as int, i, 4096);
            vstd::arithmetic::div_mod::lemma_div_is_ordered(i, end - 1, 4096);
            assert(self.dirty@.contains(block_of(i) as usize));
        }
        assert forall|b: int| old(self).block_dirty(b) implies self.block_dirty(b) by {
            assert(self.dirty@.contains(b as usize));
        }
    }

    /// Gives every byte of `[addr, addr + size)` the permission `perm`.
    /// Fails, changing nothing, where the range does not lie in memory.
    pub fn set_permissions(&mut self, addr: VirtAddr, size: usize, perm: Perm) -> (r: Option<()>)
        requires
            old(self).wf(),
        ensures
            final(self).wf(),
            r.is_some() <==> addr.0 + size <= old(self).mem().len(),
            r.is_none() ==> *final(self) == *old(self),
            size == 0 ==> *final(self) == *old(self),
            r.is_some() ==> {
                &&& final(self).mem() == old(self).mem()
                &&& final(self).perms() == filled(old(self).perms(), addr.0 as int, size as int, perm)
                &&& final(self).cursor() == old(self).cursor()
                &&& old(self).changes_tracked(&*final(self))
                &&& forall|i: int| addr.0 <= i < addr.0 + size ==> final(self).byte_dirty(i)
            },
    {
        let len = self.permissions.len();
        let end = match addr.0.checked_add(size) {
            Some(e) => e,
            None => return None,
        };
        if end > len {
            return None;
        }
        if size == 0 {
            proof {
                assert(self.permissions@ =~= filled(old(self).permissions@, addr.0 as int, 0, perm));
            }
            return Some(());
        }
        if size > 0 {
            self.mark_dirty(addr.0, end);
        }
        let ghost marked = *self;
        let mut k = addr.0;
        while k < end
            invariant
                addr.0 <= k <= end,
                end == addr.0 + size,
                end <= self.permissions@.len(),
                self.wf(),
                self.memory@ == marked.memory@,
                self.dirty@ == marked.dirty@,
                self.cur_alloc == marked.cur_alloc,
                self.permissions@.len() == marked.permissions@.len(),
                marked.permissions@ == old(self).permissions@,
                forall|i: int| 0 <= i < self.permissions@.len() ==> self.permissions@[i] ==
                    (if addr.0 <= i < k { perm } else { old(self).permissions@[i] }),
            decreases end - k,
        {
            self.permissions.set(k, perm);
            k += 1;
        }
        assert(self.permissions@ =~= filled(old(self).permissions@, addr.0 as int, size as int, perm));
        assert forall|i: int| addr.0 <= i < addr.0 + size implies self.byte_dirty(i) by {
            assert(marked.byte_dirty(i));
        }
        Some(())
    }

    /// Bump-allocates `size` bytes at the cursor and marks them writable but
    /// not yet readable. `allocate(0)` returns the cursor without moving it.
    /// Fails, changing nothing, where the cursor is already at the end of
    /// memory or the allocation would pass it.
    pub fn allocate(&mut self, size: usize) -> (r: Option<VirtAddr>)
        requires
            old(self).wf(),
        ensures
            final(self).wf(),
            r.is_some() <==> (old(self).cursor() < old(self).mem().len() && old(self).cursor() + size <= old(self).mem().len()),
            r.is_none() ==> *final(self) == *old(self),
            size == 0 ==> *final(self) == *old(self),
            r matches Some(base) ==> base.0 == old(self).cursor() && old(self).allocated(size, &*final(self)),
    {
        let base = self.cur_alloc;
        if base.0 >= self.memory.len() {
            return None;
        }
        let new_end = match base.0.checked_add(size) {
            Some(e) => e,
            None => return None,
        };
        if self.memory.len() < new_end {
            return None;
        }
        let _ = self.set_permissions(base, size, Perm(PERM_RAW | PERM_WRITE));
        let ghost set = *self;
        self.cur_alloc = VirtAddr(new_end);
        assert(self.dirty_list() == set.dirty_list());
        assert forall|i: int| 0 <= i < old(self).mem().len() && (self.mem()[i] != old(self).mem()[i] || self.perms()[i] != old(self).perms()[i])
            implies self.byte_dirty(i) by {
            assert(set.byte_dirty(i));
        }
        assert forall|b: int| old(self).block_dirty(b) implies self.block_dirty(b) by {
            assert(set.block_dirty(b));
        }

        Some(base)
    }

    /// Writes `buf` at `addr`. Every target byte must be writable; otherwise
    /// the write fails at the lowest byte that is not, and nothing is
    /// changed. On success the touched blocks become dirty and bytes marked
    /// read-after-write become readable.
    pub fn write_from(&mut self, addr: VirtAddr, buf: &[u8]) -> (r: Result<(), VmExit>)
        requires
            old(self).wf(),
        ensures
            final(self).wf(),
            r == check_access(old(self).perms(), addr.0, buf@.len() as usize, PERM_WRITE, true),
            r.is_err() ==> *final(self) == *old(self),
            r.is_ok() ==> old(self).wrote(addr.0 as int, buf@, &*final(self)),
    {
        let size = buf.len();
        let checked = self.check_range(addr, size, PERM_WRITE, true);
        if checked.is_err() {
            return checked;
        }
        let start = addr.0;
        let end = start + size;
        let mut k = start;
        while k < end
            invariant
                start <= k <= end,
                start == addr.0,
                end == start + buf@.len(),
                end <= self.memory@.len(),
                self.wf(),
                self.permissions@ == old(self).permissions@,
                self.dirty@ == old(self).dirty@,
                self.dirty_bitmap@ == old(self).dirty_bitmap@,
                self.cur_alloc == old(self).cur_alloc,
                self.memory@.len() == old(self).memory@.len(),
                forall|i: int| 0 <= i < self.memory@.len() ==> self.memory@[i] ==
                    (if start <= i < k { buf@[i - start] } else { old(self).memory@[i] }),
            decreases end - k,
        {
            self.memory.set(k, buf[k - start]);
            k += 1;
        }
        if size > 0 {
            self.mark_dirty(start, end);
        }
        let ghost marked = *self;
        let mut k = start;
        while k < end
            invariant
                start <= k <= end,
                end == start + buf@.len(),
                end <= self.permissions@.len(),
                self.wf(),
                self.memory@ == marked.memory@,
                self.dirty@ == marked.dirty@,
                self.cur_alloc == marked.cur_alloc,
                self.permissions@.len() == old(self).permissions@.len(),
                marked.permissions@ == old(self).permissions@,
                forall|i: int| 0 <= i < self.permissions@.len() ==> self.permissions@[i] ==
                    (if start <= i < k { promoted(old(self).permissions@[i]) } else { old(self).permissions@[i] }),
            decreases end - k,
        {
            let p = self.permissions[k];
            self.permissions.set(k, promote_on_write(p));
            k += 1;
        }
        assert(self.memory@ =~= spliced(old(self).memory@, start as int, buf@));
        assert(self.permissions@ =~= promoted_range(old(self).permissions@, start as int, size as int));
        assert forall|i: int| start <= i < end implies self.byte_dirty(i) by {
            assert(marked.byte_dirty(i));
        }
        assert forall|b: int| old(self).block_dirty(b) implies self.block_dirty(b) by {
            if size > 0 {
                assert(marked.block_dirty(b));
            }
        }
        Ok(())
    }

    /// Loads each section of `sections` from `image` in order: the file
    /// bytes are copied, the rest of the section's memory is zeroed, and the
    /// section then gets its declared permission. Stops with `None` at the
    /// first section that does not fit in memory or in the image, or that
    /// has more file bytes than memory bytes.
    pub fn load(&mut self, image: &[u8], sections: &[Sections]) -> (r: Option<()>)
        requires
            old(self).wf(),
        ensures
            final(self).wf(),
            r.is_some() <==> first_unfit(sections@, old(self).mem().len() as int, image@.len() as int) == sections@.len(),
            old(self).loaded(image@, sections@, &*final(self)),
    {
        let len = self.memory.len();
        let image_len = image.len();
        let ghost start = *self;
        let ghost unfit = first_unfit(sections@, len as int, image@.len() as int);
        proof {
            lemma_first_unfit(sections@, len as int, image@.len() as int);
        }
        let mut k: usize = 0;
        while k < sections.len()
            invariant
                k <= sections@.len(),
                k <= unfit,
                image_len == image@.len(),
                unfit == first_unfit(sections@, len as int, image@.len() as int),
                0 <= unfit <= sections@.len(),
                forall|m: int| 0 <= m < unfit ==> section_fits(#[trigger] sections@[m], len as int, image@.len() as int),
                unfit < sections@.len() ==> !section_fits(sections@[unfit], len as int, image@.len() as int),
                start == *old(self),
                len == self.memory@.len(),
                len == start.memory@.len(),
                self.wf(),
                self.mem() == loaded_mem(start.mem(), image@, sections@.take(k as int)),
                self.perms() == loaded_perms(start.perms(), sections@.take(k as int)),
                self.cursor() == start.cursor(),
                start.changes_tracked(&*self),
            decreases sections@.len() - k,
        {
            let sec = sections[k];
            let va = sec.virt_addr.0;
            let mem_end = match va.checked_add(sec.mem_size) {
                Some(e) => e,
                None => return None,
            };
            let file_end = match sec.file_offset.checked_add(sec.file_size) {
                Some(e) => e,
                None => return None,
            };
            if mem_end > len || sec.file_size > sec.mem_size || file_end > image_len {
                return None;
            }
            assert(section_fits(sec, len as int, image@.len() as int));
            let ghost before = *self;
            let _ = self.set_permissions(sec.virt_addr, sec.mem_size, Perm(PERM_WRITE));
            let ghost opened = *self;
            proof {
                assert((PERM_WRITE & PERM_WRITE) == PERM_WRITE) by (bit_vector);
                assert((PERM_WRITE & PERM_RAW) == 0) by (bit_vector);
                lemma_all_have(self.perms(), va as int, va + sec.file_size, PERM_WRITE);
            }
            let file_bytes = vstd::slice::slice_subrange(image, sec.file_offset, file_end);
            let _ = self.write_from(sec.virt_addr, file_bytes);
            let ghost copied = *self;
            let padding = filled_vec(0u8, sec.mem_size - sec.file_size);
            proof {
                lemma_all_have(self.perms(), va + sec.file_size, va + sec.mem_size, PERM_WRITE);
            }
            let _ = self.write_from(VirtAddr(va + sec.file_size), padding.as_slice());
            let ghost zeroed = *self;
            let _ = self.set_permissions(sec.virt_addr, sec.mem_size, sec.permissions);
            proof {
                lemma_tracked_trans(&start, &before, &opened);
                lemma_tracked_trans(&start, &opened, &copied);
                lemma_tracked_trans(&start, &copied, &zeroed);
                lemma_tracked_trans(&start, &zeroed, &*self);
                let done = sections@.take(k as int + 1);
                assert(done.drop_last() =~= sections@.take(k as int));
                assert(done.last() == sec);
                assert(self.mem() =~= section_mem(before.mem(), image@, sec));
                assert(self.perms() =~= filled(before.perms(), va as int, sec.mem_size as int, sec.permissions));
            }
            k += 1;
        }
        proof {
            assert(sections@.take(sections@.len() as int) =~= sections@);
        }
        Some(())
    }

    /// Borrows the `size` bytes at `addr`, after checking that each holds
    /// every bit of `exp_perms`; otherwise fails at the lowest byte that
    /// does not.
    pub fn peek(&self, addr: VirtAddr, size: usize, exp_perms: Perm) -> (r: Result<&[u8], VmExit>)
        requires
            self.wf(),
        ensures
            r.is_ok() <==> check_access(self.perms(), addr.0, size, exp_perms.0, false).is_ok(),
            r matches Err(e) ==> check_access(self.perms(), addr.0, size, exp_perms.0, false) == Err::<(), VmExit>(e),
            r matches Ok(bytes) ==> bytes@ == self.mem().subrange(addr.0 as int, addr.0 + size),
    {
        match self.check_range(addr, size, exp_perms.0, false) {
            Err(e) => Err(e),
            Ok(()) => Ok(vstd::slice::slice_subrange(self.memory.as_slice(), addr.0, addr.0 + size)),
        }
    }

    /// Copies the memory at `addr` into `buf`, after checking that each byte
    /// holds every bit of `exp_perms`; otherwise fails at the lowest byte
    /// that does not, leaving `buf` as it was.
    pub fn read_into_perms(&self, addr: VirtAddr, buf: &mut [u8], exp_perms: Perm) -> (r: Result<(), VmExit>)
        requires
            self.wf(),
        ensures
            r == check_access(self.perms(), addr.0, old(buf)@.len() as usize, exp_perms.0, false),
            r.is_ok() ==> final(buf)@ == self.mem().subrange(addr.0 as int, addr.0 + old(buf)@.len()),
            r.is_err() ==> final(buf)@ == old(buf)@,
    {
        let size = buf.len();
        let checked = self.check_range(addr, size, exp_perms.0, false);
        if checked.is_err() {
            return checked;
        }
        let mut k: usize = 0;
        while k < size
            invariant
                k <= size,
                self.wf(),
                size == buf@.len(),
                addr.0 + size <= self.memory@.len(),
                forall|i: int| 0 <= i < k ==> buf@[i] == self.memory@[addr.0 + i],
            decreases size - k,
        {
            buf[k] = self.memory[addr.0 + k];
            k += 1;
        }
        assert(buf@ =~= self.memory@.subrange(addr.0 as int, addr.0 + size));
        Ok(())
    }

    /// Reads into `buf` from `addr`, requiring read permission.
    pub fn read_into(&self, addr: VirtAddr, buf: &mut [u8]) -> (r: Result<(), VmExit>)
        requires
            self.wf(),
        ensures
            r == check_access(self.perms(), addr.0, old(buf)@.len() as usize, PERM_READ, false),
            r.is_ok() ==> final(buf)@ == self.mem().subrange(addr.0 as int, addr.0 + old(buf)@.len()),
            r.is_err() ==> final(buf)@ == old(buf)@,
    {
        self.read_into_perms(addr, buf, Perm(PERM_READ))
    }

    /// Reads a `T` at `addr`, its bytes least significant first, after
    /// checking that each byte holds every bit of `exp_perms`.
    pub fn read_perms<T: Primitive>(&mut self, addr: VirtAddr, exp_perms: Perm) -> (r: Result<T, VmExit>)
        requires
            old(self).wf(),
        ensures
            *final(self) == *old(self),
            r.is_ok() <==> check_access(old(self).perms(), addr.0, T::width_spec() as usize, exp_perms.0, false).is_ok(),
            r matches Err(e) ==> check_access(old(self).perms(), addr.0, T::width_spec() as usize, exp_perms.0, false) == Err::<(), VmExit>(e),
            r matches Ok(v) ==> v.value() == le_value(old(self).mem().subrange(addr.0 as int, addr.0 + T::width_spec())),
    {
        let mut tmp = filled_vec(0u8, T::width());
        match self.read_into_perms(addr, tmp.as_mut_slice(), exp_perms) {
            Err(e) => Err(e),
            Ok(()) => Ok(T::from_le(tmp.as_slice())),
        }
    }

    /// Reads a `T` at `addr`, requiring read permission.
    pub fn read<T: Primitive>(&mut self, addr: VirtAddr) -> (r: Result<T, VmExit>)
        requires
            old(self).wf(),
        ensures
            *final(self) == *old(self),
            r.is_ok() <==> check_access(old(self).perms(), addr.0, T::width_spec() as usize, PERM_READ, false).is_ok(),
            r matches Err(e) ==> check_access(old(self).perms(), addr.0, T::width_spec() as usize, PERM_READ, false) == Err::<(), VmExit>(e),
            r matches Ok(v) ==> v.value() == le_value(old(self).mem().subrange(addr.0 as int, addr.0 + T::width_spec())),
    {
        self.read_perms(addr, Perm(PERM_READ))
    }

    /// Writes `val` at `addr`, least significant byte first, as `write_from`
    /// writes its bytes.
    pub fn write<T: Primitive>(&mut self, addr: VirtAddr, val: T) -> (r: Result<(), VmExit>)
        requires
            old(self).wf(),
        ensures
            final(self).wf(),
            r == check_access(old(self).perms(), addr.0, T::width_spec() as usize, PERM_WRITE, true),
            r.is_err() ==> *final(self) == *old(self),
            r.is_ok() ==> old(self).wrote(addr.0 as int, le_bytes(val.value(), T::width_spec()), &*final(self)),
    {
        let bytes = val.to_le();
        proof {
            crate::primitive::lemma_le_round_trip(val.value(), T::width_spec());
        }
        self.write_from(addr, bytes.as_slice())
    }

    /// Restores every dirty block, bytes and permissions, from `other`,
    /// clears the dirty set and takes `other`'s allocator cursor.
    pub fn reset(&mut self, other: &Mmu)
        requires
            old(self).wf(),
            other.wf(),
            other.mem().len() == old(self).mem().len(),
        ensures
            final(self).wf(),
            old(self).restored(other, &*final(self)),
    {
        let len = self.memory.len();
        let n = self.dirty.len();
        let mut k: usize = 0;
        while k < n
            invariant
                k <= n,
                n == self.dirty@.len(),
                len == self.memory@.len(),
                len == old(self).memory@.len(),
                old(self).wf(),
                other.wf(),
                other.memory@.len() == len,
                self.dirty@ == old(self).dirty@,
                self.memory@.len() == len,
                self.permissions@.len() == len,
                self.dirty_bitmap@.len() == old(self).dirty_bitmap@.len(),
                self.cur_alloc == old(self).cur_alloc,
                forall|i: int| 0 <= i < len ==> self.memory@[i] ==
                    (if listed_before(old(self).dirty@, k as int, block_of(i)) { other.memory@[i] } else { old(self).memory@[i] }),
                forall|i: int| 0 <= i < len ==> self.permissions@[i] ==
                    (if listed_before(old(self).dirty@, k as int, block_of(i)) { other.permissions@[i] } else { old(self).permissions@[i] }),
                forall|w: int| 0 <= w < self.dirty_bitmap@.len() ==> self.dirty_bitmap@[w] ==
                    (if word_listed_before(old(self).dirty@, k as int, w) { 0u64 } else { old(self).dirty_bitmap@[w] }),
            decreases n - k,
        {
            let block = self.dirty[k];
            proof {
                assert(old(self).dirty@[k as int] < block_count(len as int));
                vstd::arithmetic::div_mod::lemma_fundamental_div_mod(len as int + 4095, 4096);
                vstd::arithmetic::div_mod::lemma_fundamental_div_mod(len as int, 4096);
            }
            let start = block * DIRTY_BLOCK_SIZE;
            let end = if len - start < DIRTY_BLOCK_SIZE { len } else { start + DIRTY_BLOCK_SIZE };
            let ghost before = *self;
            let mut i = start;
            while i < end
                invariant
                    start <= i <= end,
                    end <= len,
                    start == block * 4096,
                    end == start + 4096 || end == len,
                    len == self.memory@.len(),
                    other.memory@.len() == len,
                    other.permissions@.len() == len,
                    self.memory@.len() == len,
                    self.permissions@.len() == len,
                    self.dirty@ == before.dirty@,
                    self.dirty_bitmap@ == before.dirty_bitmap@,
                    self.cur_alloc == before.cur_alloc,
                    forall|x: int| 0 <= x < len ==> self.memory@[x] ==
                        (if start <= x < i { other.memory@[x] } else { before.memory@[x] }),
                    forall|x: int| 0 <= x < len ==> self.permissions@[x] ==
                        (if start <= x < i { other.permissions@[x] } else { before.permissions@[x] }),
                decreases end - i,
            {
                self.memory.set(i, other.memory[i]);
                self.permissions.set(i, other.permissions[i]);
                i += 1;
            }
            self.dirty_bitmap.set(block / 64, 0);
            proof {
                assert forall|x: int| 0 <= x < len implies
                    (listed_before(old(self).dirty@, k + 1, block_of(x)) <==>
                        (listed_before(old(self).dirty@, k as int, block_of(x)) || block_of(x) == block as int))
                    && ((start <= x < end) <==> block_of(x) == block as int) by {
                    lemma_block_bounds(x, block as int);
                    if block_of(x) == block as int {
                        assert(old(self).dirty@[k as int] as int == block_of(x));
                    }
                    if listed_before(old(self).dirty@, k + 1, block_of(x)) && block_of(x) != block as int {
                        let m = choose|m: int| 0 <= m < k + 1 && old(self).dirty@[m] as int == block_of(x);
                        assert(m < k);
                    }
                }
                assert forall|w: int| 0 <= w < self.dirty_bitmap@.len() implies
                    word_listed_before(old(self).dirty@, k + 1, w) ==
                        (word_listed_before(old(self).dirty@, k as int, w) || block / 64 == w) by {
                    if block / 64 == w {
                        assert(old(self).dirty@[k as int] / 64 == w);
                    }
                    if word_listed_before(old(self).dirty@, k + 1, w) {
                        let m = choose|m: int| 0 <= m < k + 1 && old(self).dirty@[m] / 64 == w;
                        if m < k {
                            assert(word_listed_before(old(self).dirty@, k as int, w));
                        }
                    }
                }
            }
            k += 1;
        }
        self.dirty.truncate(0);
        self.cur_alloc = other.cur_alloc;
        proof {
            assert forall|i: int| 0 <= i < len implies
                listed_before(old(self).dirty@, n as int, block_of(i)) == old(self).byte_dirty(i) by {
                lemma_block_in_range(i, len as int);
                if old(self).byte_dirty(i) {
                    let m = choose|m: int| 0 <= m < n && old(self).dirty@[m] == block_of(i) as usize;
                    assert(old(self).dirty@[m] as int == block_of(i));
                }
            }
            assert forall|w: int, j: int| 0 <= w < self.dirty_bitmap@.len() && 0 <= j < 64 implies
                (#[trigger] bit_set(self.dirty_bitmap@[w], j) <==> self.dirty@.contains((w * 64 + j) as usize)) by {
                lemma_bit_zero(j as u64);
                if bit_set(self.dirty_bitmap@[w], j) {
                    assert(!word_listed_before(old(self).dirty@, n as int, w));
                    assert(bit_set(old(self).dirty_bitmap@[w], j));
                    let x = (w * 64 + j) as usize;
                    vstd::arithmetic::div_mod::lemma_fundamental_div_mod(len as int / 4096, 64);
                    vstd::arithmetic::div_mod::lemma_fundamental_div_mod(len as int, 4096);
                    assert(w * 64 + j <= len / 4096 + 64);
                    assert(old(self).dirty@.contains(x));
                    let m = choose|m: int| 0 <= m < n && old(self).dirty@[m] == x;
                    lemma_word_bit(x as int, w, j);
                    assert(old(self).dirty@[m] / 64 == w);
                }
            }
        }
    }
}

/// Read-after-write: once `data` has been written at `addr`, the range
/// holds exactly `data`, so a read of it that finds its permissions present
/// (`peek`, `read_into_perms`) returns `data`.
pub proof fn lemma_read_after_write(before: &Mmu, after: &Mmu, addr: usize, data: Seq<u8>, need: u8)
    requires
        before.wf(),
        before.wrote(addr as int, data, after),
        addr + data.len() <= after.mem().len(),
        check_access(after.perms(), addr, data.len() as usize, need, false) is Ok,
    ensures
        after.mem().subrange(addr as int, addr + data.len()) == data,
{
    before.lemma_sizes();
    assert(after.mem().subrange(addr as int, addr + data.len()) =~= data);
}

proof fn lemma_first_lacking_is_lowest(perms: Seq<Perm>, i: int, end: int, need: u8, a: int)
    requires
        i <= a < end,
        !has_perm(perms[a], need),
    ensures
        i <= first_lacking(perms, i, end, need) <= a,
        !has_perm(perms[first_lacking(perms, i, end, need)], need),
        forall|k: int| i <= k < first_lacking(perms, i, end, need) ==> has_perm(#[trigger] perms[k], need),
    decreases end - i,
{
    if has_perm(perms[i], need) {
        lemma_first_lacking_is_lowest(perms, i + 1, end, need, a);
    }
}

/// Where a byte of an in-bounds range lacks a required permission bit, the
/// access fails, and the fault names the lowest such byte: one at or below
/// that byte, lacking the bit, with every byte before it holding all of
/// `need`.
pub proof fn lemma_fault_is_lowest(perms: Seq<Perm>, addr: usize, size: usize, need: u8, write: bool, a: int)
    requires
        addr + size <= perms.len(),
        addr + size <= usize::MAX,
        addr <= a < addr + size,
        !has_perm(perms[a], need),
    ensures
        ({
            let f = first_lacking(perms, addr as int, addr + size, need);
            &&& addr <= f <= a
            &&& !has_perm(perms[f], need)
            &&& forall|k: int| addr <= k < f ==> has_perm(#[trigger] perms[k], need)
            &&& check_access(perms, addr, size, need, write) == if write {
                Err::<(), VmExit>(VmExit::WriteFault(VirtAddr(f as usize)))
            } else {
                Err::<(), VmExit>(VmExit::ReadFault(VirtAddr(f as usize)))
            }
        }),
{
    lemma_first_lacking_is_lowest(perms, addr as int, addr + size, need, a);
}

/// Freshly allocated bytes are writable but not readable; after `data` is
/// written inside them, exactly the written bytes of the allocation are
/// readable.
pub proof fn lemma_fresh_until_written(m0: &Mmu, m1: &Mmu, m2: &Mmu, size: usize, addr: usize, data: Seq<u8>)
    requires
        m0.allocated(size, m1),
        m1.wrote(addr as int, data, m2),
        m0.cursor() <= addr,
        addr + data.len() <= m0.cursor() + size,
        m0.cursor() + size <= m0.perms().len(),
    ensures
        forall|i: int| m0.cursor() <= i < m0.cursor() + size ==>
            has_perm(#[trigger] m1.perms()[i], PERM_WRITE) && !has_perm(m1.perms()[i], PERM_READ),
        forall|i: int| m0.cursor() <= i < m0.cursor() + size ==>
            (has_perm(#[trigger] m2.perms()[i], PERM_READ) <==> addr <= i < addr + data.len()),
{
    let x: u8 = PERM_RAW | PERM_WRITE;
    assert(x & 2u8 == 2u8 && x & 1u8 != 1u8 && x & 8u8 != 0u8) by (bit_vector)
        requires x == 8u8 | 2u8;
    assert((x | 1u8) & 1u8 == 1u8) by (bit_vector);
}

/// Resetting a fork to the space it was forked from, before anything is
/// written, changes nothing: the same bytes, permissions, cursor and (empty)
/// dirty set.
pub proof fn lemma_fork_reset_noop(s: &Mmu, f: &Mmu, r: &Mmu)
    requires
        s.wf(),
        s.forked_into(f),
        f.restored(s, r),
    ensures
        r.mem() == f.mem(),
        r.perms() == f.perms(),
        r.cursor() == f.cursor(),
        r.dirty_list() == f.dirty_list(),
{
    s.lemma_sizes();
    assert(r.mem() =~= f.mem());
    assert(r.perms() =~= f.perms());
    assert(r.dirty_list() =~= f.dirty_list());
}

/// A fork agrees with its source outside its (empty) dirty set.
pub proof fn lemma_fork_agrees(s: &Mmu, f: &Mmu)
    requires
        s.forked_into(f),
    ensures
        f.agrees_outside_dirty(s),
{
}

/// A step whose changes are tracked keeps agreement with a snapshot.
pub proof fn lemma_tracked_agrees(snap: &Mmu, a: &Mmu, b: &Mmu)
    requires
        a.agrees_outside_dirty(snap),
        a.changes_tracked(b),
    ensures
        b.agrees_outside_dirty(snap),
{
    assert forall|i: int| 0 <= i < b.mem().len() && !b.byte_dirty(i) implies
        b.mem()[i] == snap.mem()[i] && b.perms()[i] == snap.perms()[i] by {
        if a.byte_dirty(i) {
            assert(b.block_dirty(block_of(i)));
        }
    }
}

/// Writes, permission changes, allocations and loads all track their
/// changes, so after any sequence of them a fork of `snap` still agrees with
/// it outside its dirty blocks; resetting such a space to `snap` then gives
/// `snap` back byte for byte, with an empty dirty set.
pub proof fn lemma_reset_restores(snap: &Mmu, m: &Mmu, r: &Mmu)
    requires
        m.agrees_outside_dirty(snap),
        m.perms().len() == m.mem().len(),
        snap.perms().len() == snap.mem().len(),
        m.restored(snap, r),
    ensures
        r.mem() == snap.mem(),
        r.perms() == snap.perms(),
        r.cursor() == snap.cursor(),
        r.dirty_list().len() == 0,
{
    assert(r.mem() =~= snap.mem());
    assert(r.perms() =~= snap.perms());
}

/// Loading the same image and sections into two fresh spaces of the same
/// size gives the same memory and permissions.
pub proof fn lemma_load_deterministic(a0: &Mmu, a1: &Mmu, b0: &Mmu, b1: &Mmu, size: usize, image: Seq<u8>, secs: Seq<Sections>)
    requires
        a0.is_fresh(size),
        b0.is_fresh(size),
        a0.loaded(image, secs, a1),
        b0.loaded(image, secs, b1),
    ensures
        a1.mem() == b1.mem(),
        a1.perms() == b1.perms(),
{
}

} // verus!
