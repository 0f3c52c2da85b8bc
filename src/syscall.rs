//! The system calls that a guest may make, carried out as operations on its
//! address space. Host effects (console, files, clock) are the caller's: it
//! fetches what a call needs before handling it and performs what the
//! handler returns.
use vstd::prelude::*;
use crate::mmu::{Mmu, Perm, VirtAddr, VmExit, PERM_READ, PERM_WRITE, check_access};
use crate::primitive::{le_bytes, le_value};

verus! {

pub const SYS_CLOSE: u64 = 57;
pub const SYS_LSEEK: u64 = 62;
pub const SYS_READ: u64 = 63;
pub const SYS_WRITE: u64 = 64;
pub const SYS_FSTAT: u64 = 80;
pub const SYS_EXIT: u64 = 93;
pub const SYS_GETTIMEOFDAY: u64 = 169;
pub const SYS_BRK: u64 = 214;
/// Opens a file by name; a number of this harness's own.
pub const SYS_OPEN: u64 = 1024;

/// Descriptor of the host's standard input.
pub const FD_STDIN: u64 = 0;
/// Descriptor of the host's standard output.
pub const FD_STDOUT: u64 = 1;
/// Descriptor of the host's standard error.
pub const FD_STDERR: u64 = 2;
/// Descriptor of the readme document.
pub const FD_README: u64 = 1010;
/// Descriptor of the protected payload, which opening "readme" yields.
pub const FD_FLAG: u64 = 2020;

/// What a failed system call returns: all bits set.
pub const SYSCALL_FAILED: u64 = 0xffff_ffff_ffff_ffff;

/// Bytes of the stat structure that `fstat` fills.
pub const STAT_SIZE: usize = 0x90;

/// The emulated system calls.
#[derive(Clone, Copy, Debug, PartialEq, Eq, Structural)]
pub enum Syscall {
    Brk,
    Read,
    Write,
    Fstat,
    GetTimeOfDay,
    Open,
    Lseek,
    Close,
    Exit,
}

/// Where the bytes of a `read` come from.
#[derive(Clone, Copy, Debug, PartialEq, Eq, Structural)]
pub enum ReadSource {
    /// One line of the host's standard input.
    Stdin,
    /// The readme document.
    Readme,
    /// The protected payload.
    Flag,
    /// A descriptor that is not open.
    Unknown,
}

/// Per-process secrets, fixed when the process starts.
pub struct Session {
    /// Key of the cipher applied to the guest's console output.
    pub key: Vec<u8>,
    /// Offset added to the wall clock that the guest sees.
    pub time_offset: u64,
}

/// The call that number `num` names, if it is emulated.
pub open spec fn syscall_of(num: u64) -> Option<Syscall> {
    if num == SYS_BRK {
        Some(Syscall::Brk)
    } else if num == SYS_READ {
        Some(Syscall::Read)
    } else if num == SYS_WRITE {
        Some(Syscall::Write)
    } else if num == SYS_FSTAT {
        Some(Syscall::Fstat)
    } else if num == SYS_GETTIMEOFDAY {
        Some(Syscall::GetTimeOfDay)
    } else if num == SYS_OPEN {
        Some(Syscall::Open)
    } else if num == SYS_LSEEK {
        Some(Syscall::Lseek)
    } else if num == SYS_CLOSE {
        Some(Syscall::Close)
    } else if num == SYS_EXIT {
        Some(Syscall::Exit)
    } else {
        None
    }
}

/// The source that descriptor `fd` reads from.
pub open spec fn source_of(fd: u64) -> ReadSource {
    if fd == FD_STDIN {
        ReadSource::Stdin
    } else if fd == FD_README {
        ReadSource::Readme
    } else if fd == FD_FLAG {
        ReadSource::Flag
    } else {
        ReadSource::Unknown
    }
}

/// `line` with every newline replaced by a NUL byte.
pub open spec fn nul_terminated(line: Seq<u8>) -> Seq<u8> {
    Seq::new(line.len(), |i: int| if line[i] == 10u8 { 0u8 } else { line[i] })
}

/// The one file name that `open` recognises.
pub open spec fn readme_name() -> Seq<u8> {
    seq![114u8, 101u8, 97u8, 100u8, 109u8, 101u8]
}

/// The value that `gettimeofday` reports: the wall clock plus the session's
/// offset, wrapping.
pub open spec fn reported_time(offset: u64, now_secs: u64) -> u64 {
    ((offset as nat + now_secs as nat) % 0x1_0000_0000_0000_0000) as u64
}

/// What `sys_brk` does with a request for break `requested`.
pub open spec fn brk_done(before: &Mmu, requested: u64, r: Result<u64, VmExit>, after: &Mmu) -> bool {
    let cur = before.cursor();
    let len = before.mem().len();
    if cur >= len {
        r == Ok::<u64, VmExit>(SYSCALL_FAILED) && *after == *before
    } else if requested == 0 {
        r == Ok::<u64, VmExit>(cur as u64) && *after == *before
    } else if requested < cur {
        r == Err::<u64, VmExit>(VmExit::NegativeBreak) && *after == *before
    } else if requested > len {
        r == Ok::<u64, VmExit>(SYSCALL_FAILED) && *after == *before
    } else {
        &&& r == Ok::<u64, VmExit>(requested)
        &&& before.allocated((requested - cur) as usize, after)
    }
}

/// What `sys_read` does with the bytes `host` that the source of `fd` gave.
pub open spec fn read_done(before: &Mmu, fd: u64, buf: u64, host: Seq<u8>, r: Result<u64, VmExit>, after: &Mmu) -> bool {
    let data = if fd == FD_STDIN { nul_terminated(host) } else { host };
    let checked = check_access(before.perms(), buf as usize, data.len() as usize, PERM_WRITE, true);
    if source_of(fd) == ReadSource::Unknown {
        r == Ok::<u64, VmExit>(SYSCALL_FAILED) && *after == *before
    } else {
        match checked {
            Ok(()) => r == Ok::<u64, VmExit>(host.len() as u64) && before.wrote(buf as usize as int, data, after),
            Err(e) => r == Err::<u64, VmExit>(e) && *after == *before,
        }
    }
}

/// What `sys_fstat` does with the stat structure at `statbuf`.
pub open spec fn fstat_done(before: &Mmu, statbuf: u64, r: Result<u64, VmExit>, after: &Mmu) -> bool {
    match check_access(before.perms(), statbuf as usize, STAT_SIZE, PERM_WRITE, true) {
        Ok(()) => r == Ok::<u64, VmExit>(0) && before.wrote(statbuf as usize as int, Seq::new(STAT_SIZE as nat, |i: int| 0u8), after),
        Err(e) => r == Err::<u64, VmExit>(e) && *after == *before,
    }
}

/// What `sys_gettimeofday` does with the time value at `timeval`.
pub open spec fn time_done(before: &Mmu, time_offset: u64, timeval: u64, now_secs: u64, r: Result<u64, VmExit>, after: &Mmu) -> bool {
    match check_access(before.perms(), timeval as usize, 8, PERM_WRITE, true) {
        Ok(()) => r == Ok::<u64, VmExit>(0) && before.wrote(timeval as usize as int,
            le_bytes(reported_time(time_offset, now_secs) as nat, 8), after),
        Err(e) => r == Err::<u64, VmExit>(e) && *after == *before,
    }
}

/// What a handled system call leaves for the caller to do.
#[derive(Debug)]
pub struct Reply {
    /// The value for the result register, if the call sets one.
    pub ret: Option<u64>,
    /// Bytes for the console.
    pub console: Option<Vec<u8>>,
    /// A file name that `open` did not recognise, to log.
    pub unknown_name: Option<Vec<u8>>,
}

/// The result register value of a reply, as a per-call handler gives it.
pub open spec fn ret_of(r: Result<Reply, VmExit>) -> Result<u64, VmExit> {
    match r {
        Ok(rep) => match rep.ret {
            Some(v) => Ok(v),
            None => Ok(SYSCALL_FAILED),
        },
        Err(e) => Err(e),
    }
}

/// Whether `r` is a reply that only sets the result register, or an error.
pub open spec fn plain_reply(r: Result<Reply, VmExit>) -> bool {
    r matches Ok(rep) ==> rep.ret.is_some() && rep.console.is_none() && rep.unknown_name.is_none()
}

/// Decodes a system call number.
pub fn decode_syscall(num: u64) -> (r: Option<Syscall>)
    ensures
        r == syscall_of(num),
{
    if num == SYS_BRK {
        Some(Syscall::Brk)
    } else if num == SYS_READ {
        Some(Syscall::Read)
    } else if num == SYS_WRITE {
        Some(Syscall::Write)
    } else if num == SYS_FSTAT {
        Some(Syscall::Fstat)
    } else if num == SYS_GETTIMEOFDAY {
        Some(Syscall::GetTimeOfDay)
    } else if num == SYS_OPEN {
        Some(Syscall::Open)
    } else if num == SYS_LSEEK {
        Some(Syscall::Lseek)
    } else if num == SYS_CLOSE {
        Some(Syscall::Close)
    } else if num == SYS_EXIT {
        Some(Syscall::Exit)
    } else {
        None
    }
}

/// The source that a `read` of descriptor `fd` takes its bytes from.
pub fn read_source(fd: u64) -> (r: ReadSource)
    ensures
        r == source_of(fd),
{
    if fd == FD_STDIN {
        ReadSource::Stdin
    } else if fd == FD_README {
        ReadSource::Readme
    } else if fd == FD_FLAG {
        ReadSource::Flag
    } else {
        ReadSource::Unknown
    }
}

/// Replaces every newline of `line` with a NUL byte.
pub fn nul_terminate(line: &[u8]) -> (r: Vec<u8>)
    ensures
        r@ == nul_terminated(line@),
{
    let mut r: Vec<u8> = Vec::with_capacity(line.len());
    let mut i: usize = 0;
    while i < line.len()
        invariant
            i <= line@.len(),
            r@ =~= nul_terminated(line@).take(i as int),
        decreases line@.len() - i,
    {
        let b = line[i];
        r.push(if b == 10u8 { 0u8 } else { b });
        i += 1;
    }
    assert(nul_terminated(line@).take(line@.len() as int) =~= nul_terminated(line@));
    r
}

/// Whether `name` is the one file name that `open` recognises.
pub fn is_readme(name: &[u8]) -> (r: bool)
    ensures
        r == (name@ == readme_name()),
{
    let r = name.len() == 6 && name[0] == 114u8 && name[1] == 101u8 && name[2] == 97u8
        && name[3] == 100u8 && name[4] == 109u8 && name[5] == 101u8;
    proof {
        if r {
            assert(name@ =~= readme_name());
        }
    }
    r
}

/// Moves the program break to `requested`, or reports it where `requested`
/// is 0. Growing allocates the new bytes writable but not yet readable and
/// returns the new break; where that allocation fails, or the cursor is
/// already at the end of memory, the call fails with `SYSCALL_FAILED` and
/// changes nothing. A break below the current one is a fatal error.
pub fn sys_brk(mmu: &mut Mmu, requested: u64) -> (r: Result<u64, VmExit>)
    requires
        old(mmu).wf(),
    ensures
        final(mmu).wf(),
        brk_done(&*old(mmu), requested, r, &*final(mmu)),
{
    proof {
        mmu.lemma_sizes();
    }
    let cur = match mmu.allocate(0) {
        Some(base) => base.0,
        None => return Ok(SYSCALL_FAILED),
    };
    if requested == 0 {
        return Ok(cur as u64);
    }
    if requested < cur as u64 {
        return Err(VmExit::NegativeBreak);
    }
    let increment = requested - cur as u64;
    if increment > usize::MAX as u64 {
        return Ok(SYSCALL_FAILED);
    }
    match mmu.allocate(increment as usize) {
        Some(_) => Ok(requested),
        None => Ok(SYSCALL_FAILED),
    }
}

/// Copies the bytes of a `read` from descriptor `fd` into guest memory at
/// `buf`. `host` holds what the source gave: one line of standard input,
/// whose newlines become NUL bytes, or the whole of a file, copied whatever
/// count was asked for. Returns the number of bytes the source gave, or
/// `SYSCALL_FAILED` for a descriptor that is not open. The requested
/// `count` does not limit the copy.
pub fn sys_read(mmu: &mut Mmu, fd: u64, buf: u64, count: u64, host: &[u8]) -> (r: Result<u64, VmExit>)
    requires
        old(mmu).wf(),
    ensures
        final(mmu).wf(),
        read_done(&*old(mmu), fd, buf, host@, r, &*final(mmu)),
{
    let addr = VirtAddr(buf as usize);
    match read_source(fd) {
        ReadSource::Stdin => {
            let data = nul_terminate(host);
            match mmu.write_from(addr, data.as_slice()) {
                Ok(()) => Ok(host.len() as u64),
                Err(e) => Err(e),
            }
        },
        ReadSource::Readme | ReadSource::Flag => {
            match mmu.write_from(addr, host) {
                Ok(()) => Ok(host.len() as u64),
                Err(e) => Err(e),
            }
        },
        ReadSource::Unknown => Ok(SYSCALL_FAILED),
    }
}

/// A `write` to standard output or standard error: checks that the `len`
/// bytes at `buf` are readable and hands them back for the console, with
/// `len` as the call's result. Any other descriptor gives `SYSCALL_FAILED`
/// and nothing to print.
pub fn sys_write(mmu: &Mmu, fd: u64, buf: u64, len: u64) -> (r: Result<(u64, Option<&[u8]>), VmExit>)
    requires
        mmu.wf(),
    ensures
        fd != FD_STDOUT && fd != FD_STDERR ==> r.is_ok() && r.unwrap().0 == SYSCALL_FAILED && r.unwrap().1.is_none(),
        fd == FD_STDOUT || fd == FD_STDERR ==> match check_access(mmu.perms(), buf as usize, len as usize, PERM_READ, false) {
            Ok(()) => {
                &&& r.is_ok()
                &&& r.unwrap().0 == len
                &&& r.unwrap().1.is_some()
                &&& r.unwrap().1.unwrap()@ == mmu.mem().subrange(buf as usize as int, buf as usize + len as usize)
            },
            Err(e) => r.is_err() && r.unwrap_err() == e,
        },
{
    if fd == FD_STDOUT || fd == FD_STDERR {
        match mmu.peek(VirtAddr(buf as usize), len as usize, Perm(PERM_READ)) {
            Ok(bytes) => Ok((len, Some(bytes))),
            Err(e) => Err(e),
        }
    } else {
        Ok((SYSCALL_FAILED, None))
    }
}

/// Zeroes the stat structure at `statbuf` and reports success.
pub fn sys_fstat(mmu: &mut Mmu, statbuf: u64) -> (r: Result<u64, VmExit>)
    requires
        old(mmu).wf(),
    ensures
        final(mmu).wf(),
        fstat_done(&*old(mmu), statbuf, r, &*final(mmu)),
{
    let zeros = crate::mmu::zeroed(STAT_SIZE);
    match mmu.write_from(VirtAddr(statbuf as usize), zeros.as_slice()) {
        Ok(()) => Ok(0),
        Err(e) => Err(e),
    }
}

/// Writes the time the guest sees, the session's offset plus `now_secs`
/// (wrapping), as a 64-bit value at `timeval`, and reports success.
pub fn sys_gettimeofday(mmu: &mut Mmu, session: &Session, timeval: u64, now_secs: u64) -> (r: Result<u64, VmExit>)
    requires
        old(mmu).wf(),
    ensures
        final(mmu).wf(),
        time_done(&*old(mmu), session.time_offset, timeval, now_secs, r, &*final(mmu)),
{
    let time = session.time_offset.wrapping_add(now_secs);
    match mmu.write::<u64>(VirtAddr(timeval as usize), time) {
        Ok(()) => Ok(0),
        Err(e) => Err(e),
    }
}

/// Whether the bytes of `mem` from `addr` for `n` bytes are all readable
/// and not NUL.
pub open spec fn readable_text(m: &Mmu, addr: int, n: int) -> bool {
    &&& n == 0 || addr + n <= m.mem().len()
    &&& forall|k: int| addr <= k < addr + n ==> crate::mmu::has_perm(#[trigger] m.perms()[k], PERM_READ)
    &&& forall|k: int| addr <= k < addr + n ==> #[trigger] m.mem()[k] != 0u8
}

proof fn lemma_readable_at(m: &Mmu, addr: int, n: int, k: int)
    requires
        readable_text(m, addr, n),
        addr <= k < addr + n,
    ensures
        crate::mmu::has_perm(m.perms()[k], PERM_READ),
        m.mem()[k] != 0,
{
}

/// Opens the file whose NUL-terminated name is at `filename`. The one name
/// recognised, "readme", yields `FD_FLAG`; any other yields
/// `SYSCALL_FAILED`. The name read is handed back for the caller to log.
/// Fails at the first byte, up to the terminator, that is not readable.
pub fn sys_open(mmu: &mut Mmu, filename: u64) -> (r: Result<(u64, Vec<u8>), VmExit>)
    requires
        old(mmu).wf(),
    ensures
        *final(mmu) == *old(mmu),
        match r {
            Ok((fd, name)) => {
                &&& readable_text(old(mmu), filename as usize as int, name@.len() as int)
                &&& name@ == old(mmu).mem().subrange(filename as usize as int, filename as usize + name@.len())
                &&& check_access(old(mmu).perms(), (filename as usize + name@.len()) as usize, 1, PERM_READ, false) is Ok
                &&& old(mmu).mem()[filename as usize + name@.len()] == 0
                &&& fd == if name@ == readme_name() { FD_FLAG } else { SYSCALL_FAILED }
            },
            Err(e) => exists|n: int| 0 <= n && #[trigger] readable_text(old(mmu), filename as usize as int, n)
                && check_access(old(mmu).perms(), (filename as usize + n) as usize, 1, PERM_READ, false) == Err::<(), VmExit>(e),
        },
{
    let start = filename as usize;
    let mut len: usize = 0;
    proof {
        mmu.lemma_sizes();
    }
    loop
        invariant
            mmu.wf(),
            *mmu == *old(mmu),
            start == filename as usize,
            mmu.perms().len() == mmu.mem().len(),
            mmu.mem().len() <= usize::MAX,
            readable_text(old(mmu), start as int, len as int),
            len > 0 ==> start + len <= mmu.mem().len(),
        ensures
            start + len < mmu.mem().len(),
            check_access(mmu.perms(), (start + len) as usize, 1, PERM_READ, false) is Ok,
            mmu.mem()[start + len] == 0,
        decreases usize::MAX - len,
    {
        if start > usize::MAX - len {
            assert(check_access(mmu.perms(), (start + len) as usize, 1, PERM_READ, false) is Err);
            return Err(VmExit::AddressIntegerOverflow);
        }
        let at = VirtAddr(start + len);
        match mmu.read::<u8>(at) {
            Err(e) => {
                assert(<u8 as crate::primitive::Primitive>::width_spec() == 1);
                assert(readable_text(old(mmu), start as int, len as int));
                assert(check_access(mmu.perms(), at.0, 1usize, PERM_READ, false) == Err::<(), VmExit>(e));
                assert(check_access(old(mmu).perms(), (filename as usize + len) as usize, 1, PERM_READ, false) == Err::<(), VmExit>(e));
                return Err(e);
            },
            Ok(b) => {
                proof {
                    assert(<u8 as crate::primitive::Primitive>::width_spec() == 1);
                    let s = mmu.mem().subrange(start + len, start + len + 1);
                    assert(s.drop_first().len() == 0);
                    assert(le_value(s.drop_first()) == 0);
                    assert(le_value(s) == s[0] as nat + 256 * le_value(s.drop_first()));
                    assert(crate::mmu::first_lacking(mmu.perms(), (start + len + 1) as int, (start + len + 1) as int, PERM_READ) == (start + len + 1) as int);
                    assert(crate::mmu::has_perm(mmu.perms()[start + len], PERM_READ));
                }
                if b == 0 {
                    break;
                }
                proof {
                    assert(readable_text(old(mmu), start as int, len as int));
                    assert(mmu.mem()[start + len] == b);
                    assert forall|k: int| start <= k < start + len + 1 implies
                        crate::mmu::has_perm(#[trigger] old(mmu).perms()[k], PERM_READ) && old(mmu).mem()[k] != 0 by {
                        if k < start + len {
                            lemma_readable_at(old(mmu), start as int, len as int, k);
                        }
                    }
                }
                len += 1;
            },
        }
    }
    proof {
        crate::mmu::lemma_all_have(mmu.perms(), start as int, start + len, PERM_READ);
    }
    let name = vstd::slice::slice_to_vec(match mmu.peek(VirtAddr(start), len, Perm(PERM_READ)) {
        Ok(bytes) => bytes,
        Err(_) => return Err(VmExit::ReadFault(VirtAddr(start))),
    });
    if is_readme(name.as_slice()) {
        Ok((FD_FLAG, name))
    } else {
        Ok((SYSCALL_FAILED, name))
    }
}

/// Handles system call `num` with arguments `a0`, `a1`, `a2`. `host` is
/// what the source of a `read` gave (see `read_source`), `now_secs` the
/// wall clock for `gettimeofday`; other calls ignore them. `exit` and an
/// unknown number end the run with an error; `lseek` sets no result.
pub fn handle_syscall(
    mmu: &mut Mmu,
    session: &Session,
    num: u64,
    a0: u64,
    a1: u64,
    a2: u64,
    host: &[u8],
    now_secs: u64,
) -> (r: Result<Reply, VmExit>)
    requires
        old(mmu).wf(),
    ensures
        final(mmu).wf(),
        match syscall_of(num) {
            None => r is Err && r.unwrap_err() == VmExit::UnknownSyscall(num) && *final(mmu) == *old(mmu),
            Some(Syscall::Exit) => r is Err && r.unwrap_err() == VmExit::Exit && *final(mmu) == *old(mmu),
            Some(Syscall::Lseek) => {
                &&& r matches Ok(rep) && rep.ret.is_none() && rep.console.is_none() && rep.unknown_name.is_none()
                &&& *final(mmu) == *old(mmu)
            },
            Some(Syscall::Close) => ret_of(r) == Ok::<u64, VmExit>(0) && plain_reply(r) && *final(mmu) == *old(mmu),
            Some(Syscall::Brk) => brk_done(&*old(mmu), a0, ret_of(r), &*final(mmu)) && plain_reply(r),
            Some(Syscall::Read) => read_done(&*old(mmu), a0, a1, host@, ret_of(r), &*final(mmu)) && plain_reply(r),
            Some(Syscall::Fstat) => fstat_done(&*old(mmu), a1, ret_of(r), &*final(mmu)) && plain_reply(r),
            Some(Syscall::GetTimeOfDay) => time_done(&*old(mmu), session.time_offset, a0, now_secs, ret_of(r), &*final(mmu))
                && plain_reply(r),
            Some(Syscall::Write) => {
                &&& *final(mmu) == *old(mmu)
                &&& a0 != FD_STDOUT && a0 != FD_STDERR ==> ret_of(r) == Ok::<u64, VmExit>(SYSCALL_FAILED) && plain_reply(r)
                &&& a0 == FD_STDOUT || a0 == FD_STDERR ==> match check_access(old(mmu).perms(), a1 as usize, a2 as usize, PERM_READ, false) {
                    Ok(()) => {
                        &&& r is Ok
                        &&& r.unwrap().ret == Some(a2)
                        &&& r.unwrap().unknown_name.is_none()
                        &&& r.unwrap().console.is_some()
                        &&& r.unwrap().console.unwrap()@ == old(mmu).mem().subrange(a1 as usize as int, a1 as usize + a2 as usize)
                    },
                    Err(e) => r is Err && r.unwrap_err() == e,
                }
            },
            Some(Syscall::Open) => {
                &&& *final(mmu) == *old(mmu)
                &&& r is Ok ==> {
                    &&& r.unwrap().console.is_none()
                    &&& r.unwrap().ret == Some(FD_FLAG) || r.unwrap().ret == Some(SYSCALL_FAILED)
                    &&& r.unwrap().ret == Some(SYSCALL_FAILED) <==> r.unwrap().unknown_name.is_some()
                    &&& exists|n: int| #[trigger] readable_text(old(mmu), a0 as usize as int, n) && {
                        &&& old(mmu).mem()[a0 as usize + n] == 0
                        &&& (r.unwrap().ret == Some(FD_FLAG) <==> old(mmu).mem().subrange(a0 as usize as int, a0 as usize + n) == readme_name())
                        &&& r.unwrap().unknown_name matches Some(name) ==> name@ == old(mmu).mem().subrange(a0 as usize as int, a0 as usize + n)
                    }
                }
            },
        },
{
    match decode_syscall(num) {
        None => Err(VmExit::UnknownSyscall(num)),
        Some(Syscall::Exit) => Err(VmExit::Exit),
        Some(Syscall::Lseek) => Ok(Reply { ret: None, console: None, unknown_name: None }),
        Some(Syscall::Close) => Ok(Reply { ret: Some(0), console: None, unknown_name: None }),
        Some(Syscall::Brk) => match sys_brk(mmu, a0) {
            Ok(v) => Ok(Reply { ret: Some(v), console: None, unknown_name: None }),
            Err(e) => Err(e),
        },
        Some(Syscall::Read) => match sys_read(mmu, a0, a1, a2, host) {
            Ok(v) => Ok(Reply { ret: Some(v), console: None, unknown_name: None }),
            Err(e) => Err(e),
        },
        Some(Syscall::Fstat) => match sys_fstat(mmu, a1) {
            Ok(v) => Ok(Reply { ret: Some(v), console: None, unknown_name: None }),
            Err(e) => Err(e),
        },
        Some(Syscall::GetTimeOfDay) => match sys_gettimeofday(mmu, session, a0, now_secs) {
            Ok(v) => Ok(Reply { ret: Some(v), console: None, unknown_name: None }),
            Err(e) => Err(e),
        },
        Some(Syscall::Write) => match sys_write(mmu, a0, a1, a2) {
            Ok((v, Some(bytes))) => Ok(Reply { ret: Some(v), console: Some(vstd::slice::slice_to_vec(bytes)), unknown_name: None }),
            Ok((v, None)) => Ok(Reply { ret: Some(v), console: None, unknown_name: None }),
            Err(e) => Err(e),
        },
        Some(Syscall::Open) => match sys_open(mmu, a0) {
            Ok((fd, name)) => {
                assert(readable_text(old(mmu), a0 as usize as int, name@.len() as int));
                if fd == SYSCALL_FAILED {
                    Ok(Reply { ret: Some(fd), console: None, unknown_name: Some(name) })
                } else {
                    Ok(Reply { ret: Some(fd), console: None, unknown_name: None })
                }
            },
            Err(e) => Err(e),
        },
    }
}

} // verus!
