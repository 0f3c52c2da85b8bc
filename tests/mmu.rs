use rustme::mmu::{Mmu, Perm, Sections, VirtAddr, VmExit, PERM_EXEC, PERM_READ, PERM_WRITE};

fn bytes_at(m: &Mmu, addr: usize, size: usize) -> Vec<u8> {
    m.peek(VirtAddr(addr), size, Perm(0)).unwrap().to_vec()
}

#[test]
fn allocate_bumps_from_base() {
    let mut m = Mmu::new(0x10000);
    assert_eq!(m.allocate(0x100), Some(VirtAddr(0x1000)));
    assert_eq!(m.allocate(0x10), Some(VirtAddr(0x1100)));
    assert_eq!(m.allocate(0), Some(VirtAddr(0x1110)));
}

#[test]
fn allocate_fails_past_the_end_without_moving() {
    let mut m = Mmu::new(0x2000);
    assert_eq!(m.allocate(0x1001), None);
    assert_eq!(m.allocate(usize::MAX), None);
    assert_eq!(m.allocate(0x1000), Some(VirtAddr(0x1000)));
    assert_eq!(m.allocate(0), None);
    assert_eq!(m.allocate(1), None);
}

#[test]
fn fresh_allocation_is_writable_not_readable() {
    let mut m = Mmu::new(0x10000);
    let base = m.allocate(4).unwrap();
    assert_eq!(m.peek(base, 4, Perm(PERM_READ)).err(), Some(VmExit::ReadFault(base)));
    assert_eq!(m.write_from(VirtAddr(base.0 + 1), &[7, 8]), Ok(()));
    assert_eq!(m.peek(VirtAddr(base.0 + 1), 2, Perm(PERM_READ)).unwrap(), &[7, 8]);
    assert_eq!(m.peek(base, 1, Perm(PERM_READ)).err(), Some(VmExit::ReadFault(base)));
    assert_eq!(
        m.peek(VirtAddr(base.0 + 3), 1, Perm(PERM_READ)).err(),
        Some(VmExit::ReadFault(VirtAddr(base.0 + 3)))
    );
}

#[test]
fn read_after_write_returns_written_bytes() {
    let mut m = Mmu::new(0x10000);
    let base = m.allocate(0x20).unwrap();
    let data: Vec<u8> = (0u8..0x20).collect();
    m.write_from(base, &data).unwrap();
    let mut buf = vec![0u8; 0x20];
    assert_eq!(m.read_into(base, &mut buf), Ok(()));
    assert_eq!(buf, data);
    m.write_from(VirtAddr(base.0 + 4), &[0xaa, 0xbb]).unwrap();
    let mut buf = vec![0u8; 4];
    m.read_into(VirtAddr(base.0 + 3), &mut buf).unwrap();
    assert_eq!(buf, vec![3, 0xaa, 0xbb, 6]);
}

#[test]
fn partial_write_permission_fails_at_first_unwritable() {
    let mut m = Mmu::new(0x10000);
    m.set_permissions(VirtAddr(0x2000), 3, Perm(PERM_WRITE | PERM_READ)).unwrap();
    assert_eq!(
        m.write_from(VirtAddr(0x2000), &[1, 2, 3, 4]),
        Err(VmExit::WriteFault(VirtAddr(0x2003)))
    );
    assert_eq!(bytes_at(&m, 0x2000, 4), vec![0, 0, 0, 0]);
    m.set_permissions(VirtAddr(0x2001), 1, Perm(PERM_READ)).unwrap();
    assert_eq!(
        m.write::<u32>(VirtAddr(0x2000), 0x01020304),
        Err(VmExit::WriteFault(VirtAddr(0x2001)))
    );
    assert_eq!(bytes_at(&m, 0x2000, 4), vec![0, 0, 0, 0]);
}

#[test]
fn read_fault_names_lowest_address() {
    let mut m = Mmu::new(0x10000);
    m.set_permissions(VirtAddr(0x3000), 8, Perm(PERM_READ | PERM_EXEC)).unwrap();
    m.set_permissions(VirtAddr(0x3005), 2, Perm(PERM_READ)).unwrap();
    let mut buf = [9u8; 8];
    assert_eq!(
        m.read_into_perms(VirtAddr(0x3000), &mut buf, Perm(PERM_READ | PERM_EXEC)),
        Err(VmExit::ReadFault(VirtAddr(0x3005)))
    );
    assert_eq!(buf, [9u8; 8]);
    assert_eq!(m.read_into_perms(VirtAddr(0x3000), &mut buf, Perm(PERM_READ)), Ok(()));
    assert_eq!(buf, [0u8; 8]);
}

#[test]
fn out_of_bounds_and_overflow_are_reported() {
    let mut m = Mmu::new(0x1000);
    assert_eq!(
        m.write_from(VirtAddr(0xfff), &[1, 2]),
        Err(VmExit::AddressMiss(VirtAddr(0xfff), 2))
    );
    assert_eq!(
        m.peek(VirtAddr(usize::MAX), 2, Perm(0)).err(),
        Some(VmExit::AddressIntegerOverflow)
    );
    assert_eq!(m.set_permissions(VirtAddr(0xfff), 2, Perm(PERM_READ)), None);
    assert_eq!(m.set_permissions(VirtAddr(0xfff), 1, Perm(PERM_READ)), Some(()));
}

#[test]
fn raw_promotion_applies_only_to_raw_bytes() {
    let mut m = Mmu::new(0x10000);
    m.set_permissions(VirtAddr(0x2000), 2, Perm(PERM_WRITE)).unwrap();
    m.write_from(VirtAddr(0x2000), &[1, 2]).unwrap();
    assert_eq!(
        m.peek(VirtAddr(0x2000), 2, Perm(PERM_READ)).err(),
        Some(VmExit::ReadFault(VirtAddr(0x2000)))
    );
    assert_eq!(rustme::mmu::promote_on_write(Perm(10)), Perm(11));
    assert_eq!(rustme::mmu::promote_on_write(Perm(2)), Perm(2));
}

#[test]
fn typed_access_is_little_endian() {
    let mut m = Mmu::new(0x10000);
    let base = m.allocate(16).unwrap();
    m.write::<u32>(base, 0x11223344).unwrap();
    assert_eq!(bytes_at(&m, base.0, 4), vec![0x44, 0x33, 0x22, 0x11]);
    assert_eq!(m.read::<u32>(base), Ok(0x11223344));
    assert_eq!(m.read::<u16>(VirtAddr(base.0 + 1)), Ok(0x2233));
    assert_eq!(m.read::<u8>(VirtAddr(base.0 + 3)), Ok(0x11));
    m.write::<u64>(VirtAddr(base.0 + 8), 0x0102030405060708).unwrap();
    assert_eq!(m.read::<u64>(VirtAddr(base.0 + 8)), Ok(0x0102030405060708));
    assert_eq!(
        m.read::<u64>(VirtAddr(base.0 + 4)),
        Err(VmExit::ReadFault(VirtAddr(base.0 + 4)))
    );
    assert_eq!(
        m.read_perms::<u8>(base, Perm(PERM_READ | PERM_EXEC)),
        Err(VmExit::ReadFault(base))
    );
}

#[test]
fn fork_then_reset_changes_nothing() {
    let mut m = Mmu::new(0x3000);
    let base = m.allocate(0x800).unwrap();
    m.write_from(base, &[5; 0x100]).unwrap();
    let snap = m.fork();
    let mut f = snap.fork();
    f.reset(&snap);
    assert_eq!(bytes_at(&f, 0, 0x3000), bytes_at(&snap, 0, 0x3000));
    assert_eq!(f.peek(base, 0x100, Perm(PERM_READ)).unwrap(), &[5; 0x100][..]);
    assert_eq!(
        f.peek(VirtAddr(base.0 + 0x100), 1, Perm(PERM_READ)).err(),
        Some(VmExit::ReadFault(VirtAddr(base.0 + 0x100)))
    );
    assert_eq!(f.allocate(0), snap.fork().allocate(0));
}

#[test]
fn reset_restores_snapshot_after_writes() {
    let mut m = Mmu::new(0x5000);
    m.allocate(0x3000).unwrap();
    let snap = m.fork();
    let mut run = snap.fork();
    // a write that spans the boundary between two blocks
    run.write_from(VirtAddr(0x1ffe), &[1, 2, 3, 4]).unwrap();
    run.write_from(VirtAddr(0x3ff0), &[9; 0x10]).unwrap();
    run.allocate(0x1000).unwrap();
    run.write_from(VirtAddr(0x4000), &[7; 0x20]).unwrap();
    assert_eq!(run.peek(VirtAddr(0x2000), 2, Perm(PERM_READ)).unwrap(), &[3, 4]);
    run.reset(&snap);
    assert_eq!(bytes_at(&run, 0, 0x5000), vec![0u8; 0x5000]);
    assert_eq!(
        run.peek(VirtAddr(0x2000), 1, Perm(PERM_READ)).err(),
        Some(VmExit::ReadFault(VirtAddr(0x2000)))
    );
    assert_eq!(
        run.write_from(VirtAddr(0x4000), &[1]),
        Err(VmExit::WriteFault(VirtAddr(0x4000)))
    );
    assert_eq!(run.allocate(0), Some(VirtAddr(0x4000)));
}

#[test]
fn reset_on_unaligned_size() {
    let mut m = Mmu::new(0x1800);
    m.allocate(0x700).unwrap();
    let snap = m.fork();
    let mut run = snap.fork();
    run.set_permissions(VirtAddr(0x17f0), 0x10, Perm(PERM_WRITE)).unwrap();
    run.write_from(VirtAddr(0x17f0), &[3; 0x10]).unwrap();
    run.reset(&snap);
    assert_eq!(bytes_at(&run, 0, 0x1800), vec![0u8; 0x1800]);
    assert_eq!(
        run.write_from(VirtAddr(0x17f0), &[1]),
        Err(VmExit::WriteFault(VirtAddr(0x17f0)))
    );
}

fn sample_sections() -> Vec<Sections> {
    vec![
        Sections {
            file_offset: 2,
            virt_addr: VirtAddr(0x1000),
            file_size: 4,
            mem_size: 4,
            permissions: Perm(PERM_READ | PERM_EXEC),
        },
        Sections {
            file_offset: 6,
            virt_addr: VirtAddr(0x2000),
            file_size: 2,
            mem_size: 6,
            permissions: Perm(PERM_READ | PERM_WRITE),
        },
    ]
}

#[test]
fn load_copies_and_zero_fills() {
    let image: Vec<u8> = (10u8..20).collect();
    let mut m = Mmu::new(0x3000);
    m.set_permissions(VirtAddr(0x2000), 8, Perm(PERM_WRITE)).unwrap();
    m.write_from(VirtAddr(0x2000), &[0xff; 8]).unwrap();
    assert_eq!(m.load(&image, &sample_sections()), Some(()));
    assert_eq!(m.peek(VirtAddr(0x1000), 4, Perm(PERM_READ | PERM_EXEC)).unwrap(), &[12, 13, 14, 15]);
    assert_eq!(m.peek(VirtAddr(0x2000), 6, Perm(PERM_READ | PERM_WRITE)).unwrap(), &[16, 17, 0, 0, 0, 0]);
    assert_eq!(bytes_at(&m, 0x2006, 2), vec![0xff, 0xff]);
    assert_eq!(
        m.write_from(VirtAddr(0x1000), &[1]),
        Err(VmExit::WriteFault(VirtAddr(0x1000)))
    );
}

#[test]
fn load_is_deterministic() {
    let image: Vec<u8> = (10u8..20).collect();
    let mut a = Mmu::new(0x3000);
    let mut b = Mmu::new(0x3000);
    assert_eq!(a.load(&image, &sample_sections()), b.load(&image, &sample_sections()));
    assert_eq!(bytes_at(&a, 0, 0x3000), bytes_at(&b, 0, 0x3000));
    for addr in [0x1000usize, 0x1003, 0x2000, 0x2005, 0x2006] {
        assert_eq!(a.peek(VirtAddr(addr), 1, Perm(PERM_READ)).is_ok(), b.peek(VirtAddr(addr), 1, Perm(PERM_READ)).is_ok());
        assert_eq!(a.peek(VirtAddr(addr), 1, Perm(PERM_EXEC)).is_ok(), b.peek(VirtAddr(addr), 1, Perm(PERM_EXEC)).is_ok());
    }
}

#[test]
fn load_rejects_bad_sections() {
    let image: Vec<u8> = (10u8..20).collect();
    let mut m = Mmu::new(0x3000);
    let mut secs = sample_sections();
    secs[1].file_offset = 9;
    assert_eq!(m.load(&image, &secs), None);
    assert_eq!(m.peek(VirtAddr(0x1000), 4, Perm(PERM_READ)).unwrap(), &[12, 13, 14, 15]);
    assert_eq!(bytes_at(&m, 0x2000, 2), vec![0, 0]);
    let mut secs = sample_sections();
    secs[0].virt_addr = VirtAddr(0x2ffe);
    assert_eq!(Mmu::new(0x3000).load(&image, &secs), None);
    let mut secs = sample_sections();
    secs[1].file_size = 7;
    assert_eq!(Mmu::new(0x3000).load(&image, &secs), None);
}
