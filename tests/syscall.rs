use rustme::cipher::rc4;
use rustme::mmu::{Mmu, Perm, VirtAddr, VmExit, PERM_READ, PERM_WRITE};
use rustme::syscall::{
    decode_syscall, handle_syscall, is_readme, nul_terminate, read_source, sys_brk, sys_fstat, sys_gettimeofday, sys_open,
    sys_read, sys_write, ReadSource, Session, Syscall, FD_FLAG, FD_README, STAT_SIZE, SYSCALL_FAILED,
};

#[test]
fn brk_query_and_growth() {
    let mut m = Mmu::new(0x10000);
    let cur = sys_brk(&mut m, 0).unwrap();
    assert_eq!(cur, 0x1000);
    assert_eq!(sys_brk(&mut m, 0), Ok(cur));
    assert_eq!(sys_brk(&mut m, cur + 0x1000), Ok(cur + 0x1000));
    assert_eq!(sys_brk(&mut m, 0), Ok(cur + 0x1000));
    assert_eq!(
        m.peek(VirtAddr(cur as usize), 1, Perm(PERM_READ)).err(),
        Some(VmExit::ReadFault(VirtAddr(cur as usize)))
    );
    assert_eq!(m.write_from(VirtAddr(cur as usize + 0xfff), &[1]), Ok(()));
}

#[test]
fn brk_failures() {
    let mut m = Mmu::new(0x10000);
    assert_eq!(sys_brk(&mut m, 0x20000), Ok(SYSCALL_FAILED));
    assert_eq!(sys_brk(&mut m, 0), Ok(0x1000));
    assert_eq!(sys_brk(&mut m, 0x800), Err(VmExit::NegativeBreak));
    assert_eq!(sys_brk(&mut m, 0x10000), Ok(0x10000));
    assert_eq!(sys_brk(&mut m, 0), Ok(SYSCALL_FAILED));
}

fn write_name(m: &mut Mmu, addr: usize, name: &[u8]) {
    m.set_permissions(VirtAddr(addr), name.len(), Perm(PERM_READ | PERM_WRITE)).unwrap();
    m.write_from(VirtAddr(addr), name).unwrap();
}

#[test]
fn open_readme_then_read_whole_resource() {
    let mut m = Mmu::new(0x10000);
    write_name(&mut m, 0x2000, b"readme\0");
    let (fd, name) = sys_open(&mut m, 0x2000).unwrap();
    assert_eq!(fd, FD_FLAG);
    assert_eq!(name, b"readme".to_vec());
    let content = b"the payload: 0123456789".to_vec();
    let buf = m.allocate(0x100).unwrap();
    assert_eq!(sys_read(&mut m, fd, buf.0 as u64, 4, &content), Ok(content.len() as u64));
    assert_eq!(m.peek(buf, content.len(), Perm(PERM_READ)).unwrap(), &content[..]);
}

#[test]
fn open_unknown_name_fails() {
    let mut m = Mmu::new(0x10000);
    write_name(&mut m, 0x2000, b"flag\0");
    assert_eq!(sys_open(&mut m, 0x2000), Ok((SYSCALL_FAILED, b"flag".to_vec())));
    write_name(&mut m, 0x3000, b"readme2\0");
    assert_eq!(sys_open(&mut m, 0x3000).unwrap().0, SYSCALL_FAILED);
}

#[test]
fn open_unterminated_name_faults() {
    let mut m = Mmu::new(0x10000);
    write_name(&mut m, 0x2000, b"read");
    assert_eq!(sys_open(&mut m, 0x2000), Err(VmExit::ReadFault(VirtAddr(0x2004))));
}

#[test]
fn read_stdin_line_is_nul_terminated() {
    let mut m = Mmu::new(0x10000);
    let buf = m.allocate(0x40).unwrap();
    assert_eq!(sys_read(&mut m, 0, buf.0 as u64, 0x40, b"hello\n"), Ok(6));
    assert_eq!(m.peek(buf, 6, Perm(PERM_READ)).unwrap(), b"hello\0");
    assert_eq!(nul_terminate(b"a\nb\n"), b"a\0b\0".to_vec());
}

#[test]
fn read_unknown_fd_fails() {
    let mut m = Mmu::new(0x10000);
    let buf = m.allocate(0x40).unwrap();
    assert_eq!(sys_read(&mut m, 7, buf.0 as u64, 0x40, b"x"), Ok(SYSCALL_FAILED));
    assert_eq!(read_source(7), ReadSource::Unknown);
    assert_eq!(read_source(0), ReadSource::Stdin);
    assert_eq!(read_source(FD_README), ReadSource::Readme);
    assert_eq!(read_source(FD_FLAG), ReadSource::Flag);
}

#[test]
fn read_into_unwritable_memory_is_fatal() {
    let mut m = Mmu::new(0x10000);
    assert_eq!(
        sys_read(&mut m, FD_README, 0x2000, 3, b"abc"),
        Err(VmExit::WriteFault(VirtAddr(0x2000)))
    );
}

#[test]
fn write_to_console_checks_read_permission() {
    let mut m = Mmu::new(0x10000);
    write_name(&mut m, 0x2000, b"hi there");
    let (ret, out) = sys_write(&m, 1, 0x2000, 8).unwrap();
    assert_eq!(ret, 8);
    assert_eq!(out.unwrap(), b"hi there");
    assert_eq!(sys_write(&m, 2, 0x2000, 9).err(), Some(VmExit::ReadFault(VirtAddr(0x2008))));
    let (ret, out) = sys_write(&m, 5, 0x2000, 8).unwrap();
    assert_eq!(ret, SYSCALL_FAILED);
    assert!(out.is_none());
}

#[test]
fn fstat_zeroes_the_buffer() {
    let mut m = Mmu::new(0x10000);
    let buf = m.allocate(0x100).unwrap();
    m.write_from(buf, &[0xee; 0x100]).unwrap();
    assert_eq!(sys_fstat(&mut m, buf.0 as u64), Ok(0));
    assert_eq!(m.peek(buf, STAT_SIZE, Perm(PERM_READ)).unwrap(), &[0u8; STAT_SIZE][..]);
    assert_eq!(m.peek(VirtAddr(buf.0 + STAT_SIZE), 1, Perm(PERM_READ)).unwrap(), &[0xee]);
}

#[test]
fn gettimeofday_adds_session_offset() {
    let mut m = Mmu::new(0x10000);
    let buf = m.allocate(8).unwrap();
    let session = Session { key: b"d5AC".to_vec(), time_offset: 4268402577 };
    assert_eq!(sys_gettimeofday(&mut m, &session, buf.0 as u64, 1_700_000_000), Ok(0));
    assert_eq!(m.read::<u64>(buf), Ok(4268402577 + 1_700_000_000));
    let wrap = Session { key: b"k".to_vec(), time_offset: u64::MAX };
    sys_gettimeofday(&mut m, &wrap, buf.0 as u64, 2).unwrap();
    assert_eq!(m.read::<u64>(buf), Ok(1));
}

#[test]
fn syscall_numbers_decode() {
    assert_eq!(decode_syscall(214), Some(Syscall::Brk));
    assert_eq!(decode_syscall(63), Some(Syscall::Read));
    assert_eq!(decode_syscall(64), Some(Syscall::Write));
    assert_eq!(decode_syscall(80), Some(Syscall::Fstat));
    assert_eq!(decode_syscall(169), Some(Syscall::GetTimeOfDay));
    assert_eq!(decode_syscall(1024), Some(Syscall::Open));
    assert_eq!(decode_syscall(62), Some(Syscall::Lseek));
    assert_eq!(decode_syscall(57), Some(Syscall::Close));
    assert_eq!(decode_syscall(93), Some(Syscall::Exit));
    assert_eq!(decode_syscall(1), None);
    assert!(is_readme(b"readme"));
    assert!(!is_readme(b"readm"));
}

#[test]
fn rc4_known_vectors() {
    let mut out = Vec::new();
    rc4(b"Plaintext", b"Key", &mut out);
    assert_eq!(out, vec![0xbb, 0xf3, 0x16, 0xe8, 0xd9, 0x40, 0xaf, 0x0a, 0xd3]);
    let mut out = vec![1u8];
    rc4(b"pedia", b"Wiki", &mut out);
    assert_eq!(out, vec![1, 0x10, 0x21, 0xbf, 0x04, 0x20]);
    let mut back = Vec::new();
    rc4(&out[1..], b"Wiki", &mut back);
    assert_eq!(back, b"pedia".to_vec());
}

#[test]
fn dispatch_fixed_replies() {
    let mut m = Mmu::new(0x10000);
    let session = Session { key: b"k".to_vec(), time_offset: 5 };
    assert_eq!(handle_syscall(&mut m, &session, 93, 0, 0, 0, &[], 0).err(), Some(VmExit::Exit));
    assert_eq!(handle_syscall(&mut m, &session, 999, 0, 0, 0, &[], 0).err(), Some(VmExit::UnknownSyscall(999)));
    let r = handle_syscall(&mut m, &session, 62, 1, 2, 3, &[], 0).unwrap();
    assert_eq!(r.ret, None);
    let r = handle_syscall(&mut m, &session, 57, 3, 0, 0, &[], 0).unwrap();
    assert_eq!(r.ret, Some(0));
    let r = handle_syscall(&mut m, &session, 214, 0, 0, 0, &[], 0).unwrap();
    assert_eq!(r.ret, Some(0x1000));
}

#[test]
fn dispatch_read_write_open_time() {
    let mut m = Mmu::new(0x10000);
    let session = Session { key: b"k".to_vec(), time_offset: 5 };
    let buf = m.allocate(0x100).unwrap().0 as u64;
    let r = handle_syscall(&mut m, &session, 63, 0, buf, 0x100, b"ab\n", 0).unwrap();
    assert_eq!(r.ret, Some(3));
    let r = handle_syscall(&mut m, &session, 64, 1, buf, 3, &[], 0).unwrap();
    assert_eq!(r.ret, Some(3));
    assert_eq!(r.console, Some(b"ab\0".to_vec()));
    let r = handle_syscall(&mut m, &session, 1024, buf, 0, 0, &[], 0).unwrap();
    assert_eq!(r.ret, Some(SYSCALL_FAILED));
    assert_eq!(r.unknown_name, Some(b"ab".to_vec()));
    let r = handle_syscall(&mut m, &session, 169, buf + 8, 0, 0, &[], 10).unwrap();
    assert_eq!(r.ret, Some(0));
    assert_eq!(m.read::<u64>(VirtAddr(buf as usize + 8)), Ok(15));
    let r = handle_syscall(&mut m, &session, 80, 0, buf, 0, &[], 0).unwrap();
    assert_eq!(r.ret, Some(0));
    assert_eq!(m.read::<u64>(VirtAddr(buf as usize + 8)), Ok(0));
}
