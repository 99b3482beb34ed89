//! Processes, threads and the scheduler that picks which thread runs.
//!
//! The scheduler owns every process, and each process owns its threads.
//! The ready structure and the holding structure name threads by process
//! id and thread id; a name whose thread is gone is dropped when a pass
//! meets it. Among the threads that can run, a pass picks the one that has
//! run least; among equals, the one queued first.

use vstd::prelude::*;
use crate::ints::StackFrame;
use crate::mem::{
    is_present, misses_range, range_accepts, table_index, Pagemap, PhysMemory, ADDR_MASK,
    KERNEL_STACK_SIZE, RW, SMALL, USER, USER_STACK_SIZE,
};
use vstd::bytes::{spec_u64_to_le_bytes, u64_to_le_bytes};
use std::collections::VecDeque;
use vstd::string::StringSliceAdditionalSpecFns;

verus! {

/// The quantum: nanoseconds that a thread runs before it is preempted.
pub const TIMESLICE_NS: usize = 3_000_000;

/// Where the first user stack ends; each further one lies below the last.
pub const USER_STACK_TOP: u64 = 0x0000_7FFF_FF00_0000;

/// Thread id of the idle thread.
pub const IDLE_TID: u64 = 99;

/// Selector of the ring 0 code segment.
pub const KERNEL_CS: u64 = 0x08;

/// Selector of the ring 0 stack segment.
pub const KERNEL_SS: u64 = 0x10;

/// Selector of the ring 3 code segment, with the requested ring.
pub const USER_CS: u64 = 0x23;

/// Selector of the ring 3 stack segment, with the requested ring.
pub const USER_SS: u64 = 0x2B;

/// Flags of a fresh thread: interrupts enabled, and the bit that is always
/// set.
pub const INITIAL_RFLAGS: u64 = 0x202;

/// Size of the image that is copied to the bottom of a fresh user stack.
pub const STACK_IMAGE_SIZE: usize = 0x1000;

/// Offset in the image at which the argument strings begin; the pointers
/// to them lie from offset 0 on.
pub const ARGV_STRINGS: usize = 0x100;

/// The largest number of arguments.
pub const MAX_ARGS: usize = 63;

/// The bytes of argument `k`: its text in UTF-8.
pub open spec fn arg_bytes(args: Seq<String>, k: int) -> Seq<u8> {
    vstd::utf8::encode_utf8(args[k]@)
}

/// Offset in the image of the string of argument `k`: the strings follow
/// one another, each closed by a zero byte.
pub open spec fn arg_offset(args: Seq<String>, k: int) -> int
    decreases k,
{
    if k <= 0 {
        ARGV_STRINGS as int
    } else {
        arg_offset(args, k - 1) + arg_bytes(args, k - 1).len() + 1
    }
}

/// The arguments that a stack image has room for.
pub open spec fn args_fit(args: Seq<String>) -> bool {
    args.len() <= MAX_ARGS && arg_offset(args, args.len() as int) <= STACK_IMAGE_SIZE
}

/// Byte `j` of the string table that holds the first `k` arguments.
pub open spec fn string_byte(args: Seq<String>, k: int, j: int) -> u8
    decreases k,
{
    if k <= 0 {
        0
    } else {
        let off = arg_offset(args, k - 1);
        if off <= j < off + arg_bytes(args, k - 1).len() {
            arg_bytes(args, k - 1)[j - off]
        } else {
            string_byte(args, k - 1, j)
        }
    }
}

/// Entry `i` of the pointer array: the address that the string of
/// argument `i` has once the image lies at `ustack`, and zero after the
/// last argument.
pub open spec fn argv_pointer(args: Seq<String>, ustack: u64, i: int) -> u64 {
    if 0 <= i < args.len() {
        (ustack + arg_offset(args, i)) as u64
    } else {
        0
    }
}

/// Byte `j` of the image: the pointer array, little-endian, eight bytes an
/// entry, and behind it the string table.
pub open spec fn image_byte(args: Seq<String>, ustack: u64, j: int) -> u8 {
    if j < 8 * (args.len() + 1) {
        spec_u64_to_le_bytes(argv_pointer(args, ustack, j / 8))[j % 8]
    } else {
        string_byte(args, args.len() as int, j)
    }
}

/// The image that a user thread with the arguments `args` finds at the
/// bottom of its stack at `ustack`.
pub open spec fn argv_image(args: Seq<String>, ustack: u64) -> Seq<u8> {
    Seq::new(STACK_IMAGE_SIZE as nat, |j: int| image_byte(args, ustack, j))
}

/// The registers of a thread that has not run yet: it starts at `func`, on
/// its user stack in ring 3 or on its kernel stack in ring 0, with the
/// number of its arguments and the address of the pointer array in the
/// two registers that carry the first two arguments of a call.
pub open spec fn initial_frame(func: u64, user: bool, kstack: u64, ustack: u64, argc: u64)
    -> StackFrame {
    StackFrame {
        cs: if user {
            USER_CS
        } else {
            KERNEL_CS
        },
        ss: if user {
            USER_SS
        } else {
            KERNEL_SS
        },
        rsp: if user {
            ((ustack + USER_STACK_SIZE) as u64) & !0xFu64
        } else {
            (kstack + KERNEL_STACK_SIZE) as u64
        },
        rip: func,
        rsi: ustack,
        rdi: argc,
        rflags: INITIAL_RFLAGS,
        ..StackFrame::zero()
    }
}

/// Offsets grow with the argument.
pub proof fn lemma_offset_grows(args: Seq<String>, i: int, k: int)
    requires
        0 <= i <= k,
    ensures
        ARGV_STRINGS <= arg_offset(args, i) <= arg_offset(args, k),
    decreases k,
{
    if i < k {
        lemma_offset_grows(args, i, k - 1);
    } else {
        lemma_offset_base(args, i);
    }
}

/// No string begins before the place of the first.
pub proof fn lemma_offset_base(args: Seq<String>, i: int)
    ensures
        ARGV_STRINGS <= arg_offset(args, i),
    decreases i,
{
    if i > 0 {
        lemma_offset_base(args, i - 1);
    }
}

/// Behind the strings of the first `k` arguments the table is empty.
pub proof fn lemma_table_ends(args: Seq<String>, k: int, j: int)
    requires
        0 <= k,
        j >= arg_offset(args, k),
    ensures
        string_byte(args, k, j) == 0,
    decreases k,
{
    if k > 0 {
        lemma_table_ends(args, k - 1, j);
    }
}

/// Builds the image for the bottom of a user stack at `ustack`.
pub fn build_argv_image(args: &Vec<String>, ustack: u64) -> (image: Vec<u8>)
    requires
        args_fit(args@),
        ustack + STACK_IMAGE_SIZE <= u64::MAX,
    ensures
        image@ == argv_image(args@, ustack),
{
    let mut image: Vec<u8> = vec![0u8; 0x1000];
    let mut ptrs: Vec<u64> = Vec::new();
    let mut off: usize = ARGV_STRINGS;
    let n = args.len();
    let mut k: usize = 0;
    while k < n
        invariant
            n == args@.len(),
            args_fit(args@),
            ustack + STACK_IMAGE_SIZE <= u64::MAX,
            k <= n,
            off == arg_offset(args@, k as int),
            image@.len() == STACK_IMAGE_SIZE,
            forall|j: int| 0 <= j < STACK_IMAGE_SIZE ==> image@[j] == string_byte(args@, k as int, j),
            ptrs@.len() == k,
            forall|i: int| 0 <= i < k ==> ptrs@[i] == argv_pointer(args@, ustack, i),
        decreases n - k,
    {
        let bytes = args[k].as_str().as_bytes();
        let len = bytes.len();
        proof {
            lemma_offset_grows(args@, k as int + 1, n as int);
            assert(bytes@ == arg_bytes(args@, k as int));
        }
        let mut m: usize = 0;
        while m < len
            invariant
                m <= len,
                len == bytes@.len(),
                off + len + 1 <= STACK_IMAGE_SIZE,
                bytes@ == arg_bytes(args@, k as int),
                off == arg_offset(args@, k as int),
                k < args@.len(),
                image@.len() == STACK_IMAGE_SIZE,
                forall|j: int|
                    0 <= j < STACK_IMAGE_SIZE ==> image@[j] == if off <= j < off + m {
                        bytes@[j - off]
                    } else {
                        string_byte(args@, k as int, j)
                    },
            decreases len - m,
        {
            image[off + m] = bytes[m];
            m = m + 1;
        }
        image[off + len] = 0;
        ptrs.push(ustack + off as u64);
        proof {
            assert forall|j: int| 0 <= j < STACK_IMAGE_SIZE implies image@[j] == string_byte(
                args@,
                k as int + 1,
                j,
            ) by {
                if j == off + len {
                    lemma_table_ends(args@, k as int, j);
                }
            }
        }
        off = off + len + 1;
        k = k + 1;
    }
    ptrs.push(0);
    let mut i: usize = 0;
    while i <= n
        invariant
            n == args@.len(),
            n <= MAX_ARGS,
            i <= n + 1,
            image@.len() == STACK_IMAGE_SIZE,
            ptrs@.len() == n + 1,
            forall|q: int| 0 <= q <= n ==> ptrs@[q] == argv_pointer(args@, ustack, q),
            forall|j: int|
                0 <= j < STACK_IMAGE_SIZE ==> image@[j] == if j < 8 * i {
                    spec_u64_to_le_bytes(argv_pointer(args@, ustack, j / 8))[j % 8]
                } else {
                    string_byte(args@, n as int, j)
                },
        decreases n + 1 - i,
    {
        let b = u64_to_le_bytes(ptrs[i]);
        let mut m: usize = 0;
        while m < 8
            invariant
                m <= 8,
                i <= n,
                n <= MAX_ARGS,
                n == args@.len(),
                image@.len() == STACK_IMAGE_SIZE,
                b@ == spec_u64_to_le_bytes(argv_pointer(args@, ustack, i as int)),
                b@.len() == 8,
                forall|j: int|
                    0 <= j < STACK_IMAGE_SIZE ==> image@[j] == if j < 8 * i + m {
                        spec_u64_to_le_bytes(argv_pointer(args@, ustack, j / 8))[j % 8]
                    } else {
                        string_byte(args@, n as int, j)
                    },
            decreases 8 - m,
        {
            image[i * 8 + m] = b[m];
            m = m + 1;
        }
        i = i + 1;
    }
    assert(image@ =~= argv_image(args@, ustack));
    image
}

/// Whether child `i` of `children` has the id `tid`.
pub open spec fn is_child_in(children: Seq<Thread>, i: int, tid: u64) -> bool {
    0 <= i < children.len() && children[i].tid == tid
}

/// The place among `children` of the child with id `tid`.
pub open spec fn child_index_in(children: Seq<Thread>, tid: u64) -> Option<int> {
    if exists|i: int| is_child_in(children, i, tid) {
        Some(choose|i: int| is_child_in(children, i, tid))
    } else {
        None
    }
}

/// Whether process `i` of `procs` has the id `pid`.
pub open spec fn is_proc_in(procs: Seq<Process>, i: int, pid: u64) -> bool {
    0 <= i < procs.len() && procs[i].pid == pid
}

/// The place in `procs` of the process with id `pid`.
pub open spec fn proc_index_in(procs: Seq<Process>, pid: u64) -> Option<int> {
    if exists|i: int| is_proc_in(procs, i, pid) {
        Some(choose|i: int| is_proc_in(procs, i, pid))
    } else {
        None
    }
}

/// The thread of `procs` that `r` names.
pub open spec fn lookup(procs: Seq<Process>, r: ThreadRef) -> Option<Thread> {
    match proc_index_in(procs, r.pid) {
        None => None,
        Some(pi) => match child_index_in(procs[pi].children@, r.tid) {
            None => None,
            Some(ti) => Some(procs[pi].children@[ti]),
        },
    }
}

/// What is left of a thread that a pass has reaped: the memory to give
/// back.
#[derive(Debug, Clone, Copy, PartialEq, Eq, Structural)]
pub struct Reaped {
    pub pid: u64,
    pub tid: u64,
    /// Address of the kernel stack.
    pub kstack: u64,
    /// Virtual address of the user stack; zero where there is none.
    pub ustack: u64,
    /// Physical address of the memory behind the user stack.
    pub ustack_phys: u64,
}

/// What is left of `t` once it is reaped.
pub open spec fn reaped_of(t: Thread) -> Reaped {
    Reaped {
        pid: t.parent,
        tid: t.tid,
        kstack: t.kstack,
        ustack: t.ustack,
        ustack_phys: t.ustack_phys,
    }
}

/// Whether a pass reaps `t`.
pub open spec fn is_dead(t: Thread) -> bool {
    t.status == ThreadStatus::Terminated
}

/// The first `n` of `children` that a pass leaves in place, in their
/// order.
pub open spec fn survivors(children: Seq<Thread>, n: int) -> Seq<Thread>
    decreases n,
{
    if n <= 0 {
        Seq::empty()
    } else if is_dead(children[n - 1]) {
        survivors(children, n - 1)
    } else {
        survivors(children, n - 1).push(children[n - 1])
    }
}

/// What is left of those of the first `n` of `children` that a pass
/// reaps, in their order.
pub open spec fn dead_among(children: Seq<Thread>, n: int) -> Seq<Reaped>
    decreases n,
{
    if n <= 0 {
        Seq::empty()
    } else if is_dead(children[n - 1]) {
        dead_among(children, n - 1).push(reaped_of(children[n - 1]))
    } else {
        dead_among(children, n - 1)
    }
}

/// What is left of the threads of the first `n` of `procs` that a pass
/// reaps: process by process, in the order of the registry.
pub open spec fn dead_in(procs: Seq<Process>, n: int) -> Seq<Reaped>
    decreases n,
{
    if n <= 0 {
        Seq::empty()
    } else {
        dead_in(procs, n - 1) + dead_among(
            procs[n - 1].children@,
            procs[n - 1].children@.len() as int,
        )
    }
}

/// What is left of the first `n` of `zombies`.
pub open spec fn zombie_records(zombies: Seq<Thread>, n: int) -> Seq<Reaped>
    decreases n,
{
    if n <= 0 {
        Seq::empty()
    } else {
        zombie_records(zombies, n - 1).push(reaped_of(zombies[n - 1]))
    }
}

/// The user stack of `t`, if it has one that lies on page boundaries
/// and wholly in the address space, has in `mem` no page mapped from
/// `root` of those whose last-level table was there in `before`.
pub open spec fn stack_gone(before: &PhysMemory, mem: &PhysMemory, root: u64, t: Thread) -> bool {
    t.ustack != 0 && t.ustack % 0x1000 == 0 && t.ustack + USER_STACK_SIZE <= u64::MAX ==> forall|
        off: u64,
    |
        off < USER_STACK_SIZE && before.table_at(root, (t.ustack + off) as u64, 1) is Some ==> (
        #[trigger] mem.translation(root, (t.ustack + off) as u64)) is None
}

/// Child `c` of process `i` is one that a pass reaps.
pub open spec fn dead_child(procs: Seq<Process>, i: int, c: int) -> bool {
    0 <= i < procs.len() && 0 <= c < procs[i].children@.len() && is_dead(procs[i].children@[c])
}

/// The place among the children of the survivor at place `j` among the
/// survivors of the first `n`.
pub open spec fn origin(children: Seq<Thread>, n: int, j: int) -> int
    decreases n,
{
    if n <= 0 {
        0
    } else if !is_dead(children[n - 1]) && j == survivors(children, n - 1).len() {
        n - 1
    } else {
        origin(children, n - 1, j)
    }
}

/// Each survivor is a child that is not dead.
pub proof fn lemma_survivor_origin(children: Seq<Thread>, n: int, j: int)
    requires
        0 <= n <= children.len(),
        0 <= j < survivors(children, n).len(),
    ensures
        0 <= origin(children, n, j) < n,
        !is_dead(children[origin(children, n, j)]),
        survivors(children, n)[j] == children[origin(children, n, j)],
    decreases n,
{
    if n > 0 {
        if !is_dead(children[n - 1]) && j == survivors(children, n - 1).len() {
        } else {
            lemma_survivor_origin(children, n - 1, j);
        }
    }
}

/// Each child that is not dead is a survivor: it stands behind the
/// survivors among the children before it.
pub proof fn lemma_survivor_place(children: Seq<Thread>, n: int, i: int)
    requires
        0 <= i < n <= children.len(),
        !is_dead(children[i]),
    ensures
        0 <= survivors(children, i).len() < survivors(children, n).len(),
        survivors(children, n)[survivors(children, i).len() as int] == children[i],
    decreases n,
{
    if i < n - 1 {
        lemma_survivor_place(children, n - 1, i);
    }
}

/// Survivors keep ids of their own.
pub proof fn lemma_survivors_distinct(children: Seq<Thread>, n: int, a: int, b: int)
    requires
        0 <= n <= children.len(),
        forall|i: int, j: int|
            0 <= i < j < children.len() ==> (#[trigger] children[i]).tid != (
            #[trigger] children[j]).tid,
        0 <= a < b < survivors(children, n).len(),
    ensures
        survivors(children, n)[a].tid != survivors(children, n)[b].tid,
    decreases n,
{
    if n > 0 {
        let prev = survivors(children, n - 1);
        if !is_dead(children[n - 1]) && b == prev.len() {
            lemma_survivor_origin(children, n - 1, a);
            let i = origin(children, n - 1, a);
            assert(children[i].tid != children[n - 1].tid);
        } else {
            lemma_survivors_distinct(children, n - 1, a, b);
        }
    }
}

/// Among the survivors a thread id finds the child that it found before,
/// unless that child is dead.
pub proof fn lemma_survivor_lookup(children: Seq<Thread>, tid: u64)
    requires
        forall|i: int, j: int|
            0 <= i < j < children.len() ==> (#[trigger] children[i]).tid != (
            #[trigger] children[j]).tid,
    ensures
        ({
            let left = survivors(children, children.len() as int);
            match child_index_in(children, tid) {
                Some(ti) => if is_dead(children[ti]) {
                    child_index_in(left, tid) is None
                } else {
                    child_index_in(left, tid) is Some && left[child_index_in(left, tid)->0]
                        == children[ti]
                },
                None => child_index_in(left, tid) is None,
            }
        }),
{
    let n = children.len() as int;
    let left = survivors(children, n);
    if exists|j: int| is_child_in(left, j, tid) {
        let j = choose|j: int| is_child_in(left, j, tid);
        lemma_survivor_origin(children, n, j);
        let i = origin(children, n, j);
        assert(is_child_in(children, i, tid));
        let ti = choose|ti: int| is_child_in(children, ti, tid);
        if ti < i {
            assert(children[ti].tid != children[i].tid);
        }
        if i < ti {
            assert(children[i].tid != children[ti].tid);
        }
    } else {
        if exists|ti: int| is_child_in(children, ti, tid) {
            let ti = choose|ti: int| is_child_in(children, ti, tid);
            if !is_dead(children[ti]) {
                lemma_survivor_place(children, n, ti);
                assert(is_child_in(left, survivors(children, ti).len() as int, tid));
            }
        }
    }
}

/// The place among the children of the dead thread that stands at place
/// `j` among what is left of the dead of the first `n`.
pub open spec fn dead_origin(children: Seq<Thread>, n: int, j: int) -> int
    decreases n,
{
    if n <= 0 {
        0
    } else if is_dead(children[n - 1]) && j == dead_among(children, n - 1).len() {
        n - 1
    } else {
        dead_origin(children, n - 1, j)
    }
}

/// What is left of the dead is left of children that are dead.
pub proof fn lemma_dead_origin(children: Seq<Thread>, n: int, j: int)
    requires
        0 <= n <= children.len(),
        0 <= j < dead_among(children, n).len(),
    ensures
        0 <= dead_origin(children, n, j) < n,
        is_dead(children[dead_origin(children, n, j)]),
        dead_among(children, n)[j] == reaped_of(children[dead_origin(children, n, j)]),
    decreases n,
{
    if n > 0 {
        if is_dead(children[n - 1]) && j == dead_among(children, n - 1).len() {
        } else {
            lemma_dead_origin(children, n - 1, j);
        }
    }
}

/// Of children with ids of their own, no two of the dead leave the same
/// id behind.
pub proof fn lemma_dead_distinct(children: Seq<Thread>, n: int, a: int, b: int)
    requires
        0 <= n <= children.len(),
        forall|i: int, j: int|
            0 <= i < j < children.len() ==> (#[trigger] children[i]).tid != (
            #[trigger] children[j]).tid,
        0 <= a < b < dead_among(children, n).len(),
    ensures
        dead_among(children, n)[a].tid != dead_among(children, n)[b].tid,
    decreases n,
{
    if n > 0 {
        let prev = dead_among(children, n - 1);
        if is_dead(children[n - 1]) && b == prev.len() {
            lemma_dead_origin(children, n - 1, a);
            let i = dead_origin(children, n - 1, a);
            assert(children[i].tid != children[n - 1].tid);
        } else {
            lemma_dead_distinct(children, n - 1, a, b);
        }
    }
}

/// What is left of the dead of the first `n` processes bears the id of
/// one of those processes.
pub proof fn lemma_dead_in_pid(s: &Scheduler, n: int, j: int) -> (i: int)
    requires
        s.wf(),
        0 <= n <= s.processes@.len(),
        0 <= j < dead_in(s.processes@, n).len(),
    ensures
        0 <= i < n,
        dead_in(s.processes@, n)[j].pid == s.processes@[i].pid,
    decreases n,
{
    let procs = s.processes@;
    let before = dead_in(procs, n - 1);
    if j < before.len() {
        lemma_dead_in_pid(s, n - 1, j)
    } else {
        let kids = procs[n - 1].children@;
        lemma_dead_origin(kids, kids.len() as int, j - before.len());
        assert(procs[n - 1].wf());
        n - 1
    }
}

/// No thread is reaped twice: in a valid registry no two of the dead
/// leave the same name behind.
pub proof fn lemma_reaped_once(s: &Scheduler, n: int, a: int, b: int)
    requires
        s.wf(),
        0 <= n <= s.processes@.len(),
        0 <= a < b < dead_in(s.processes@, n).len(),
    ensures
        dead_in(s.processes@, n)[a].pid != dead_in(s.processes@, n)[b].pid || dead_in(
            s.processes@,
            n,
        )[a].tid != dead_in(s.processes@, n)[b].tid,
    decreases n,
{
    let procs = s.processes@;
    let before = dead_in(procs, n - 1);
    if b < before.len() {
        lemma_reaped_once(s, n - 1, a, b);
    } else {
        let kids = procs[n - 1].children@;
        assert(procs[n - 1].wf());
        lemma_dead_origin(kids, kids.len() as int, b - before.len());
        if a < before.len() {
            let i = lemma_dead_in_pid(s, n - 1, a);
            assert(procs[i].pid != procs[n - 1].pid);
        } else {
            lemma_dead_distinct(kids, kids.len() as int, a - before.len(), b - before.len());
        }
    }
}

/// What is left of a thread of the registry is left of a thread that the
/// registry holds under its name and that is dead: a pass takes from the
/// registry the memory of no thread that is alive, and of none that is
/// not there.
pub proof fn lemma_reaped_is_held(s: &Scheduler, n: int, j: int) -> (r: ThreadRef)
    requires
        s.wf(),
        0 <= n <= s.processes@.len(),
        0 <= j < dead_in(s.processes@, n).len(),
    ensures
        r.pid == dead_in(s.processes@, n)[j].pid,
        r.tid == dead_in(s.processes@, n)[j].tid,
        s.thread(r) is Some,
        is_dead(s.thread(r)->0),
        reaped_of(s.thread(r)->0) == dead_in(s.processes@, n)[j],
    decreases n,
{
    let procs = s.processes@;
    let before = dead_in(procs, n - 1);
    if j < before.len() {
        lemma_reaped_is_held(s, n - 1, j)
    } else {
        let kids = procs[n - 1].children@;
        let c = dead_origin(kids, kids.len() as int, j - before.len());
        lemma_dead_origin(kids, kids.len() as int, j - before.len());
        assert(procs[n - 1].wf());
        let r = ref_of(kids[c]);
        assert(s.is_proc(n - 1, r.pid));
        assert(procs[n - 1].is_child(c, r.tid));
        s.lemma_lookup(r, n - 1, c);
        r
    }
}

/// A thread that the registry does not hold is not reaped from it: once a
/// pass has reaped a thread, which takes its name out of the registry,
/// no later pass hands out its memory again, as long as no thread is
/// made under that name.
pub proof fn lemma_not_reaped_again(s: &Scheduler, gone: ThreadRef, j: int)
    requires
        s.wf(),
        s.thread(gone) is None,
        0 <= j < dead_in(s.processes@, s.processes@.len() as int).len(),
    ensures
        dead_in(s.processes@, s.processes@.len() as int)[j].pid != gone.pid || dead_in(
            s.processes@,
            s.processes@.len() as int,
        )[j].tid != gone.tid,
{
    let r = lemma_reaped_is_held(s, s.processes@.len() as int, j);
}

/// What handing out a thread id makes of a process: the id is the one
/// that the process kept for its next thread, and the process keeps the
/// one after it for the next.
pub open spec fn hands_out(before: Process, after: Process, tid: u64) -> bool {
    tid == before.next_tid && after.next_tid == tid + 1
}

/// One step in the life of a process: it hands out the id `made`, or it
/// hands out none and keeps the id for its next thread where it was.
pub open spec fn tid_step(before: Process, after: Process, made: Option<u64>) -> bool {
    match made {
        Some(tid) => hands_out(before, after, tid),
        None => after.next_tid == before.next_tid,
    }
}

/// Over any history of a process, the id that it keeps for its next
/// thread does not go down.
pub proof fn lemma_counter_grows(states: Seq<Process>, made: Seq<Option<u64>>, i: int, j: int)
    requires
        states.len() == made.len() + 1,
        forall|k: int|
            0 <= k < made.len() ==> tid_step(#[trigger] states[k], states[k + 1], made[k]),
        0 <= i <= j < states.len(),
    ensures
        states[i].next_tid <= states[j].next_tid,
    decreases j - i,
{
    if i < j {
        lemma_counter_grows(states, made, i, j - 1);
        assert(tid_step(states[j - 1], states[j], made[j - 1]));
    }
}

/// Over any history of a process, thread ids go up: an id handed out
/// later is above every id handed out before, so no id is handed out
/// twice.
pub proof fn lemma_tids_increase(states: Seq<Process>, made: Seq<Option<u64>>, i: int, j: int)
    requires
        states.len() == made.len() + 1,
        forall|k: int|
            0 <= k < made.len() ==> tid_step(#[trigger] states[k], states[k + 1], made[k]),
        0 <= i < j < made.len(),
        made[i] is Some,
        made[j] is Some,
    ensures
        made[i]->0 < made[j]->0,
{
    assert(tid_step(states[i], states[i + 1], made[i]));
    assert(tid_step(states[j], states[j + 1], made[j]));
    lemma_counter_grows(states, made, i + 1, j);
}

/// A stack that is gone stays gone while pages are only unmapped.
pub proof fn lemma_gone_stays(
    first: &PhysMemory,
    before: &PhysMemory,
    after: &PhysMemory,
    root: u64,
    t: Thread,
)
    requires
        stack_gone(first, before, root, t),
        after.shrunk_from(before),
    ensures
        stack_gone(first, after, root, t),
{
    if t.ustack != 0 && t.ustack % 0x1000 == 0 && t.ustack + USER_STACK_SIZE <= u64::MAX {
        assert forall|off: u64|
            off < USER_STACK_SIZE && first.table_at(root, (t.ustack + off) as u64, 1)
                is Some implies (#[trigger] after.translation(root, (t.ustack + off) as u64))
            is None by {
            assert(before.translation(root, (t.ustack + off) as u64) is None);
        }
    }
}

/// Two registries with the same process ids in the same places find a
/// process id in the same place.
pub proof fn lemma_same_pids(a: Seq<Process>, b: Seq<Process>, pid: u64)
    requires
        a.len() == b.len(),
        forall|i: int| 0 <= i < a.len() ==> (#[trigger] a[i]).pid == b[i].pid,
        forall|i: int, j: int| 0 <= i < j < a.len() ==> (#[trigger] a[i]).pid != (#[trigger] a[j]).pid,
    ensures
        proc_index_in(a, pid) == proc_index_in(b, pid),
{
    if exists|i: int| is_proc_in(a, i, pid) {
        let x = choose|i: int| is_proc_in(a, i, pid);
        assert(a[x].pid == b[x].pid);
        assert(is_proc_in(b, x, pid));
        let y = choose|i: int| is_proc_in(b, i, pid);
        assert(a[y].pid == b[y].pid);
        if x < y {
            assert(a[x].pid != a[y].pid);
        }
        if y < x {
            assert(a[y].pid != a[x].pid);
        }
    } else {
        if exists|i: int| is_proc_in(b, i, pid) {
            let y = choose|i: int| is_proc_in(b, i, pid);
            assert(a[y].pid == b[y].pid);
            assert(is_proc_in(a, y, pid));
        }
    }
}

/// Nanoseconds from `since` to `now`; none where the clock shows less than
/// it did.
pub open spec fn elapsed(now: u64, since: u64) -> u64 {
    if now >= since {
        (now - since) as u64
    } else {
        0
    }
}

/// What a pass makes of the thread that had the processor: its registers
/// are those of the trap, it is ready again if it was running, and the
/// time since it was given the processor counts as run. The count stops
/// at the largest number.
pub open spec fn accounted(t: Thread, regs: StackFrame, now: u64) -> Thread {
    Thread {
        regs,
        status: if t.status == ThreadStatus::Running {
            ThreadStatus::Ready
        } else {
            t.status
        },
        runtime: if t.runtime + elapsed(now, t.schedule_time) > u64::MAX {
            u64::MAX
        } else {
            (t.runtime + elapsed(now, t.schedule_time)) as u64
        },
        ..t
    }
}

/// What a pass makes of the thread that it gives the processor to.
pub open spec fn dispatched(t: Thread, now: u64) -> Thread {
    Thread { status: ThreadStatus::Running, schedule_time: now, ..t }
}

/// The name of `t`.
pub open spec fn ref_of(t: Thread) -> ThreadRef {
    ThreadRef { pid: t.parent, tid: t.tid }
}

/// The thread that `r` names as a pass sees it when it chooses: a thread
/// of the registry that is not dead, with its time on the processor
/// counted if it had the processor.
pub open spec fn seen(
    procs: Seq<Process>,
    current: Current,
    r: ThreadRef,
    regs: StackFrame,
    now: u64,
) -> Option<Thread> {
    match lookup(procs, r) {
        Some(t) => if is_dead(t) {
            None
        } else if current == Current::Thread(r) {
            Some(accounted(t, regs, now))
        } else {
            Some(t)
        },
        None => None,
    }
}

/// Whether entry `k` of `queue` names a thread of `procs` that may run at
/// `now`.
pub open spec fn is_candidate(procs: Seq<Process>, queue: Seq<ThreadRef>, k: int, now: u64) -> bool {
    0 <= k < queue.len() && lookup(procs, queue[k]) is Some && lookup(procs, queue[k])->0.can_run(
        now,
    )
}

/// Whether entry `b` of `queue` is the one that a pass picks: the first
/// of the candidates that have run least.
pub open spec fn is_pick(procs: Seq<Process>, queue: Seq<ThreadRef>, b: int, now: u64) -> bool {
    &&& is_candidate(procs, queue, b, now)
    &&& forall|k: int|
        #[trigger] is_candidate(procs, queue, k, now) ==> {
            let mine = lookup(procs, queue[b])->0.runtime;
            let other = lookup(procs, queue[k])->0.runtime;
            mine <= other && (k < b ==> mine < other)
        }
}

/// Whether `h` names a thread of `procs` that is not blocked.
pub open spec fn stays(procs: Seq<Process>, h: ThreadRef) -> bool {
    lookup(procs, h) is Some && lookup(procs, h)->0.status != ThreadStatus::Blocked
}

/// Whether `h` names a thread of `procs` that is blocked.
pub open spec fn is_held(procs: Seq<Process>, h: ThreadRef) -> bool {
    lookup(procs, h) is Some && lookup(procs, h)->0.status == ThreadStatus::Blocked
}

/// Those of the first `n` of `src` that go to the ready structure: the
/// names of threads that are there and not blocked, in their order.
pub open spec fn kept(procs: Seq<Process>, src: Seq<ThreadRef>, n: int) -> Seq<ThreadRef>
    decreases n,
{
    if n <= 0 {
        Seq::empty()
    } else if stays(procs, src[n - 1]) {
        kept(procs, src, n - 1).push(src[n - 1])
    } else {
        kept(procs, src, n - 1)
    }
}

/// Those of the first `n` of `src` that go to the holding structure: the
/// names of threads that are there and blocked, in their order.
pub open spec fn parked(procs: Seq<Process>, src: Seq<ThreadRef>, n: int) -> Seq<ThreadRef>
    decreases n,
{
    if n <= 0 {
        Seq::empty()
    } else if is_held(procs, src[n - 1]) {
        parked(procs, src, n - 1).push(src[n - 1])
    } else {
        parked(procs, src, n - 1)
    }
}

/// Whether entry `k` of `queue` names a thread that a pass at `now` may
/// give the processor to: one that is there, not dead, and ready or
/// asleep with its deadline reached.
pub open spec fn may_pick(
    procs: Seq<Process>,
    current: Current,
    queue: Seq<ThreadRef>,
    k: int,
    regs: StackFrame,
    now: u64,
) -> bool {
    0 <= k < queue.len() && seen(procs, current, queue[k], regs, now) is Some && seen(
        procs,
        current,
        queue[k],
        regs,
        now,
    )->0.can_run(now)
}

/// Whether entry `b` of `queue` is the choice of a pass at `now`: it may
/// be picked, no entry that may be picked has run less, and every such
/// entry before it has run more.
pub open spec fn is_choice(
    procs: Seq<Process>,
    current: Current,
    queue: Seq<ThreadRef>,
    b: int,
    regs: StackFrame,
    now: u64,
) -> bool {
    &&& may_pick(procs, current, queue, b, regs, now)
    &&& forall|k: int|
        #[trigger] may_pick(procs, current, queue, k, regs, now) ==> {
            let mine = seen(procs, current, queue[b], regs, now)->0.runtime;
            let other = seen(procs, current, queue[k], regs, now)->0.runtime;
            mine <= other && (k < b ==> mine < other)
        }
}

/// The name of the thread that has the processor, if it is a thread of a
/// process.
pub open spec fn name_of(current: Current) -> Option<ThreadRef> {
    match current {
        Current::Thread(r) => Some(r),
        _ => None,
    }
}

/// The first `n` of `src` without the name `r`.
pub open spec fn without(src: Seq<ThreadRef>, r: ThreadRef, n: int) -> Seq<ThreadRef>
    decreases n,
{
    if n <= 0 {
        Seq::empty()
    } else if src[n - 1] == r {
        without(src, r, n - 1)
    } else {
        without(src, r, n - 1).push(src[n - 1])
    }
}

/// The thread that had the processor, as a sequence of at most one name.
pub open spec fn prev_seq(prev: Option<ThreadRef>) -> Seq<ThreadRef> {
    match prev {
        Some(r) => seq![r],
        None => Seq::empty(),
    }
}

/// The ready structure after a pass: the names of the threads that are
/// there and not blocked; first those that the ready structure held, then
/// those of the holding structure, then the thread that had the
/// processor.
pub open spec fn requeued(
    procs: Seq<Process>,
    queue: Seq<ThreadRef>,
    holding: Seq<ThreadRef>,
    prev: Option<ThreadRef>,
) -> Seq<ThreadRef> {
    kept(procs, queue, queue.len() as int) + kept(procs, holding, holding.len() as int) + kept(
        procs,
        prev_seq(prev),
        prev_seq(prev).len() as int,
    )
}

/// The holding structure after a pass: the names of the blocked threads;
/// first those that the holding structure held, then those of the ready
/// structure, then the thread that had the processor.
pub open spec fn reheld(
    procs: Seq<Process>,
    queue: Seq<ThreadRef>,
    holding: Seq<ThreadRef>,
    prev: Option<ThreadRef>,
) -> Seq<ThreadRef> {
    parked(procs, holding, holding.len() as int) + parked(procs, queue, queue.len() as int)
        + parked(procs, prev_seq(prev), prev_seq(prev).len() as int)
}

/// What a pass hands back: whom the processor goes to, and what the
/// caller has to do for it.
pub struct ScheduleOutcome {
    /// The idle thread or a thread of the registry.
    pub next: Current,
    /// The registers to put in place of those of the trap.
    pub frame: StackFrame,
    /// Physical address of the root table of the address space to run in.
    pub address_space: u64,
    /// Whether that address space is another than the one in use.
    pub switch_space: bool,
    /// Nanoseconds until the preemption timer is to fire.
    pub quantum: usize,
    /// The vector on which the preemption timer is to fire.
    pub vector: u8,
    /// What is left of the threads that were reaped.
    pub reaped: Vec<Reaped>,
}

/// Where a thread is in its life.
#[derive(Debug, Clone, Copy, PartialEq, Eq, Structural)]
pub enum ThreadStatus {
    Ready,
    Running,
    /// Asleep until the clock shows at least this many nanoseconds.
    Sleeping(u64),
    Blocked,
    Terminated,
}

/// The name of a thread: the id of its process and its own id in it.
#[derive(Debug, Clone, Copy, PartialEq, Eq, Structural)]
pub struct ThreadRef {
    pub pid: u64,
    pub tid: u64,
}

/// A schedulable unit of execution.
pub struct Thread {
    pub name: &'static str,
    pub tid: u64,
    pub args: Vec<String>,
    pub entry: u64,
    /// Address of the kernel stack.
    pub kstack: u64,
    /// Virtual address of the user stack; zero for a kernel thread.
    pub ustack: u64,
    /// Physical address of the memory behind the user stack.
    pub ustack_phys: u64,
    /// The registers as they were when the thread last left the processor.
    pub regs: StackFrame,
    /// Id of the process that owns the thread.
    pub parent: u64,
    pub status: ThreadStatus,
    /// Nanoseconds on the processor so far.
    pub runtime: u64,
    /// The clock when the thread was last given the processor.
    pub schedule_time: u64,
}

impl Thread {
    /// This thread with another status.
    pub open spec fn with_status(self, status: ThreadStatus) -> Thread {
        Thread { status, ..self }
    }

    /// Whether a pass at time `now` may give the thread the processor: it
    /// is ready, or asleep with its deadline reached.
    pub open spec fn can_run(self, now: u64) -> bool {
        match self.status {
            ThreadStatus::Ready => true,
            ThreadStatus::Sleeping(when) => when <= now,
            _ => false,
        }
    }

    /// What a fresh thread of process `parent` is: ready, with no time on
    /// the processor, and with the registers of a thread that has not run.
    /// A kernel thread has no user stack.
    pub open spec fn fresh(
        parent: u64,
        func: u64,
        name: &'static str,
        user: bool,
        args: Vec<String>,
        tid: u64,
        kstack: u64,
        ustack: u64,
        ustack_phys: u64,
    ) -> Thread {
        Thread {
            name,
            tid,
            args,
            entry: func,
            kstack,
            ustack: if user {
                ustack
            } else {
                0
            },
            ustack_phys: if user {
                ustack_phys
            } else {
                0
            },
            regs: initial_frame(
                func,
                user,
                kstack,
                if user {
                    ustack
                } else {
                    0
                },
                if user {
                    args@.len() as u64
                } else {
                    0
                },
            ),
            parent,
            status: ThreadStatus::Ready,
            runtime: 0,
            schedule_time: 0,
        }
    }

    /// A thread of `proc` with the next thread id of `proc`; see
    /// `new_with_tid`.
    pub fn new(
        proc: &mut Process,
        mem: &mut PhysMemory,
        func: u64,
        name: &'static str,
        user: bool,
        args: Vec<String>,
        kstack: u64,
        ustack: u64,
        ustack_phys: u64,
    ) -> (r: Option<(Thread, Vec<u8>)>)
        requires
            old(proc).wf(),
            old(proc).next_tid < u64::MAX,
            old(mem).wf(),
            kstack + KERNEL_STACK_SIZE <= u64::MAX,
            user ==> args_fit(args@) && ustack + USER_STACK_SIZE <= u64::MAX,
        ensures
            final(mem).wf(),
            final(mem).grows_from(old(mem)),
            forall|rt: u64| #[trigger] final(mem).root_frame(rt) == old(mem).root_frame(rt),
            final(proc).wf(),
            final(proc).name == old(proc).name,
            final(proc).pid == old(proc).pid,
            final(proc).next_tid == old(proc).next_tid + 1,
            final(proc).children == old(proc).children,
            final(proc).pagemap.top_level == old(proc).pagemap.top_level,
            forall|i: int| 0 <= i < old(proc).children@.len() ==> (#[trigger] old(proc).children@[i]).tid < old(proc).next_tid,
            !user ==> r is Some && *final(mem) == *old(mem) && final(proc).pagemap == old(proc).pagemap,
            user && r is Some ==> range_accepts(ustack, ustack_phys, USER_STACK_SIZE as u64),
            user && old(mem).range_ready(
                old(proc).pagemap.top_level,
                ustack,
                ustack_phys,
                USER_STACK_SIZE as u64,
            ) ==> r is Some,
            ustack + USER_STACK_SIZE <= 0x8000_0000_0000 ==> final(mem).others_kept(
                old(mem),
                old(proc).pagemap.top_level,
            ),
            forall|rt: u64, v: u64|
                misses_range(v, ustack, USER_STACK_SIZE as u64) ==> #[trigger] final(mem).translation(rt, v) == old(mem).translation(rt, v),
            r is Some ==> {
                let made = r->0;
                &&& made.0 == Thread::fresh(
                    old(proc).pid,
                    func,
                    name,
                    user,
                    args,
                    old(proc).next_tid,
                    kstack,
                    ustack,
                    ustack_phys,
                )
                &&& made.1@ == if user {
                    argv_image(args@, ustack)
                } else {
                    Seq::<u8>::empty()
                }
                &&& user ==> forall|off: u64|
                    off < USER_STACK_SIZE ==> #[trigger] final(mem).translation(
                        old(proc).pagemap.top_level,
                        (ustack + off) as u64,
                    ) == Some((ustack_phys + off) as u64)
            },
    {
        let tid = proc.next_tid();
        Thread::new_with_tid(proc, mem, func, name, user, args, tid, kstack, ustack, ustack_phys)
    }

    /// A thread of `proc` that starts at `func`, with the id `tid` and the
    /// kernel stack at `kstack`.
    ///
    /// A user thread also gets the stack at `ustack`, which is mapped, for
    /// ring 3 and writable, to the memory at `ustack_phys`; the result
    /// holds beside the thread the image that belongs at the bottom of
    /// that stack. `None` where the stack cannot be mapped; the pages
    /// mapped until then stay.
    pub fn new_with_tid(
        proc: &mut Process,
        mem: &mut PhysMemory,
        func: u64,
        name: &'static str,
        user: bool,
        args: Vec<String>,
        tid: u64,
        kstack: u64,
        ustack: u64,
        ustack_phys: u64,
    ) -> (r: Option<(Thread, Vec<u8>)>)
        requires
            old(mem).wf(),
            kstack + KERNEL_STACK_SIZE <= u64::MAX,
            user ==> args_fit(args@) && ustack + USER_STACK_SIZE <= u64::MAX,
        ensures
            final(mem).wf(),
            final(mem).grows_from(old(mem)),
            forall|rt: u64| #[trigger] final(mem).root_frame(rt) == old(mem).root_frame(rt),
            final(proc).name == old(proc).name,
            final(proc).pid == old(proc).pid,
            final(proc).next_tid == old(proc).next_tid,
            final(proc).children == old(proc).children,
            final(proc).pagemap.top_level == old(proc).pagemap.top_level,
            !user ==> r is Some && *final(mem) == *old(mem) && final(proc).pagemap == old(proc).pagemap,
            user && r is Some ==> range_accepts(ustack, ustack_phys, USER_STACK_SIZE as u64),
            user && old(mem).range_ready(
                old(proc).pagemap.top_level,
                ustack,
                ustack_phys,
                USER_STACK_SIZE as u64,
            ) ==> r is Some,
            ustack + USER_STACK_SIZE <= 0x8000_0000_0000 ==> final(mem).others_kept(
                old(mem),
                old(proc).pagemap.top_level,
            ),
            forall|rt: u64, v: u64|
                misses_range(v, ustack, USER_STACK_SIZE as u64) ==> #[trigger] final(mem).translation(rt, v) == old(mem).translation(rt, v),
            r is Some ==> {
                let made = r->0;
                &&& made.0 == Thread::fresh(
                    old(proc).pid,
                    func,
                    name,
                    user,
                    args,
                    tid,
                    kstack,
                    ustack,
                    ustack_phys,
                )
                &&& made.1@ == if user {
                    argv_image(args@, ustack)
                } else {
                    Seq::<u8>::empty()
                }
                &&& user ==> forall|off: u64|
                    off < USER_STACK_SIZE ==> #[trigger] final(mem).translation(
                        old(proc).pagemap.top_level,
                        (ustack + off) as u64,
                    ) == Some((ustack_phys + off) as u64)
            },
    {
        let mut image: Vec<u8> = Vec::new();
        let mut argc: u64 = 0;
        if user {
            proof {
                assert(is_present(7) && 7u64 & ADDR_MASK == 0) by {
                    assert(7u64 & 1 != 0 && 7u64 & 0x000F_FFFF_FFFF_F000 == 0) by (bit_vector);
                }
                assert(RW | USER == 7) by (bit_vector);
            }
            if !proc.pagemap.map_range(mem, ustack, ustack_phys, USER_STACK_SIZE as u64, RW | USER) {
                return None;
            }
            image = build_argv_image(&args, ustack);
            argc = args.len() as u64;
        }
        let regs = StackFrame {
            r15: 0,
            r14: 0,
            r13: 0,
            r12: 0,
            r11: 0,
            r10: 0,
            r9: 0,
            r8: 0,
            rbp: 0,
            rdi: argc,
            rsi: if user {
                ustack
            } else {
                0
            },
            rdx: 0,
            rcx: 0,
            rbx: 0,
            rax: 0,
            vector: 0,
            ec: 0,
            rip: func,
            cs: if user {
                USER_CS
            } else {
                KERNEL_CS
            },
            rflags: INITIAL_RFLAGS,
            rsp: if user {
                (ustack + USER_STACK_SIZE as u64) & !0xF
            } else {
                kstack + KERNEL_STACK_SIZE as u64
            },
            ss: if user {
                USER_SS
            } else {
                KERNEL_SS
            },
        };
        let thread = Thread {
            name,
            tid,
            args,
            entry: func,
            kstack,
            ustack: if user {
                ustack
            } else {
                0
            },
            ustack_phys: if user {
                ustack_phys
            } else {
                0
            },
            regs,
            parent: proc.pid,
            status: ThreadStatus::Ready,
            runtime: 0,
            schedule_time: 0,
        };
        Some((thread, image))
    }

    pub fn get_name(&self) -> (r: &'static str)
        ensures
            r == self.name,
    {
        self.name
    }

    pub fn get_tid(&self) -> (r: u64)
        ensures
            r == self.tid,
    {
        self.tid
    }

    /// The id of the owning process.
    pub fn get_parent(&self) -> (r: u64)
        ensures
            r == self.parent,
    {
        self.parent
    }

    pub fn get_status(&self) -> (r: &ThreadStatus)
        ensures
            *r == self.status,
    {
        &self.status
    }

    pub fn set_status(&mut self, status: ThreadStatus)
        ensures
            *final(self) == old(self).with_status(status),
    {
        self.status = status;
    }

    /// Whether the thread has a user stack.
    pub fn is_user(&self) -> (r: bool)
        ensures
            r == (self.ustack != 0),
    {
        self.ustack != 0
    }

    /// Whether this thread is to run before `other`: it has run less.
    pub fn precedes(&self, other: &Thread) -> (r: bool)
        ensures
            r == (self.runtime < other.runtime),
    {
        self.runtime < other.runtime
    }
}

/// An isolated execution context: an address space and the threads that
/// run in it.
pub struct Process {
    pub name: &'static str,
    pub pid: u64,
    /// The id that the next thread gets.
    pub next_tid: u64,
    pub pagemap: Pagemap,
    pub children: Vec<Thread>,
}

impl Process {
    /// Validity: every child belongs here, with an id of its own that was
    /// handed out before.
    pub open spec fn wf(&self) -> bool {
        &&& forall|i: int|
            0 <= i < self.children@.len() ==> (#[trigger] self.children@[i]).tid < self.next_tid
                && self.children@[i].parent == self.pid
        &&& forall|i: int, j: int|
            0 <= i < j < self.children@.len() ==> (#[trigger] self.children@[i]).tid != (
            #[trigger] self.children@[j]).tid
    }

    /// Whether child `i` has the id `tid`.
    pub open spec fn is_child(&self, i: int, tid: u64) -> bool {
        is_child_in(self.children@, i, tid)
    }

    /// The place of the child with id `tid` among the children.
    pub open spec fn child_index(&self, tid: u64) -> Option<int> {
        child_index_in(self.children@, tid)
    }

    /// A process without threads; its first thread gets the id 1.
    pub fn new(name: &'static str, pid: u64, pagemap: Pagemap) -> (p: Process)
        ensures
            p.wf(),
            p.name == name,
            p.pid == pid,
            p.pagemap == pagemap,
            p.next_tid == 1,
            p.children@.len() == 0,
    {
        Process { name, pid, next_tid: 1, pagemap, children: Vec::new() }
    }

    pub fn get_name(&self) -> (r: &'static str)
        ensures
            r == self.name,
    {
        self.name
    }

    pub fn get_pid(&self) -> (r: u64)
        ensures
            r == self.pid,
    {
        self.pid
    }

    pub fn get_children(&self) -> (r: &Vec<Thread>)
        ensures
            *r == self.children,
    {
        &self.children
    }

    /// The children, to change them in place. What is done to them has to
    /// keep the process valid.
    pub fn get_children_mut(&mut self) -> (r: &mut Vec<Thread>)
        ensures
            *r == old(self).children,
            final(self).children == *final(r),
            final(self).name == old(self).name,
            final(self).pid == old(self).pid,
            final(self).next_tid == old(self).next_tid,
            final(self).pagemap == old(self).pagemap,
    {
        &mut self.children
    }

    /// Hands out the next thread id. Ids go up by one from 1.
    pub fn next_tid(&mut self) -> (tid: u64)
        requires
            old(self).wf(),
            old(self).next_tid < u64::MAX,
        ensures
            hands_out(*old(self), *final(self), tid),
            tid == old(self).next_tid,
            final(self).next_tid == tid + 1,
            final(self).wf(),
            final(self).name == old(self).name,
            final(self).pid == old(self).pid,
            final(self).pagemap == old(self).pagemap,
            final(self).children == old(self).children,
            forall|i: int| 0 <= i < old(self).children@.len() ==> (#[trigger] old(self).children@[i]).tid < tid,
    {
        let tid = self.next_tid;
        self.next_tid = tid + 1;
        tid
    }

    /// The place of the child with id `tid`.
    pub fn find_child(&self, tid: u64) -> (r: Option<usize>)
        requires
            self.wf(),
        ensures
            r is Some == self.child_index(tid) is Some,
            r is Some ==> r->0 == self.child_index(tid)->0 && self.is_child(r->0 as int, tid),
    {
        let mut i: usize = 0;
        while i < self.children.len()
            invariant
                self.wf(),
                i <= self.children@.len(),
                forall|j: int| 0 <= j < i ==> !is_child_in(self.children@, j, tid),
            decreases self.children@.len() - i,
        {
            if self.children[i].tid == tid {
                proof {
                    assert(self.is_child(i as int, tid));
                    let j = choose|j: int| is_child_in(self.children@, j, tid);
                    if i < j {
                        assert(self.children@[i as int].tid != self.children@[j].tid);
                    }
                }
                return Some(i);
            }
            i = i + 1;
        }
        None
    }
}

/// What the processor is given to.
#[derive(Debug, Clone, Copy, PartialEq, Eq, Structural)]
pub enum Current {
    /// Nothing yet: no pass has run.
    Nothing,
    /// The idle thread.
    Idle,
    /// A thread of a process.
    Thread(ThreadRef),
}

/// The registry of processes, the ready structure and what runs now.
pub struct Scheduler {
    pub processes: Vec<Process>,
    /// Threads of killed processes, to be reaped by the next pass.
    pub zombies: Vec<Thread>,
    /// Runs when nothing else can.
    pub idle: Thread,
    pub current: Current,
    /// The ready structure.
    pub queue: Vec<ThreadRef>,
    /// Holds the blocked threads.
    pub secondary_queue: VecDeque<ThreadRef>,
    pub timeslice: usize,
    /// The id that the next process gets.
    pub next_pid: u64,
    /// Where the user stack handed out last begins.
    pub next_ustack_addr: u64,
    /// The address space whose upper half every process shares.
    pub kernel_map: Pagemap,
    /// Root table of the address space that the processor runs in.
    pub active_space: u64,
}

impl Scheduler {
    /// Validity: every process is valid and has an id of its own that was
    /// handed out before.
    pub open spec fn wf(&self) -> bool {
        &&& forall|i: int|
            0 <= i < self.processes@.len() ==> (#[trigger] self.processes@[i]).wf()
                && self.processes@[i].pid < self.next_pid
        &&& forall|i: int, j: int|
            0 <= i < j < self.processes@.len() ==> (#[trigger] self.processes@[i]).pid != (
            #[trigger] self.processes@[j]).pid
    }

    /// Whether process `i` has the id `pid`.
    pub open spec fn is_proc(&self, i: int, pid: u64) -> bool {
        is_proc_in(self.processes@, i, pid)
    }

    /// The place of the process with id `pid` in the registry.
    pub open spec fn proc_index(&self, pid: u64) -> Option<int> {
        proc_index_in(self.processes@, pid)
    }

    /// The thread that `r` names, if it is in the registry.
    pub open spec fn thread(&self, r: ThreadRef) -> Option<Thread> {
        lookup(self.processes@, r)
    }

    /// The thread that runs now, if it is one of the registry.
    pub open spec fn running(&self) -> Option<ThreadRef> {
        match self.current {
            Current::Thread(r) => if self.thread(r) is Some {
                Some(r)
            } else {
                None
            },
            _ => None,
        }
    }

    /// Everything but the registry is as in `old`.
    pub open spec fn same_queues(&self, old: &Scheduler) -> bool {
        &&& self.zombies == old.zombies
        &&& self.idle == old.idle
        &&& self.current == old.current
        &&& self.queue == old.queue
        &&& self.secondary_queue == old.secondary_queue
        &&& self.timeslice == old.timeslice
        &&& self.next_pid == old.next_pid
        &&& self.next_ustack_addr == old.next_ustack_addr
        &&& self.kernel_map == old.kernel_map
        &&& self.active_space == old.active_space
    }

    /// The registry is that of `old` but for child `ti` of process `pi`,
    /// which is now `t`.
    pub open spec fn replaced(&self, old: &Scheduler, pi: int, ti: int, t: Thread) -> bool {
        &&& self.processes@.len() == old.processes@.len()
        &&& forall|i: int|
            0 <= i < old.processes@.len() ==> {
                let p = #[trigger] self.processes@[i];
                let q = old.processes@[i];
                &&& p.name == q.name
                &&& p.pid == q.pid
                &&& p.next_tid == q.next_tid
                &&& p.pagemap == q.pagemap
                &&& p.children@ == if i == pi {
                    q.children@.update(ti, t)
                } else {
                    q.children@
                }
            }
    }

    /// The registry is that of `old` but for process `pi`, which has handed
    /// out one more thread id and has `t` as its last child; the page
    /// counter of its address space may differ.
    pub open spec fn child_added(&self, old: &Scheduler, pi: int, t: Thread) -> bool {
        &&& self.processes@.len() == old.processes@.len()
        &&& forall|i: int|
            0 <= i < old.processes@.len() ==> {
                let p = #[trigger] self.processes@[i];
                let q = old.processes@[i];
                &&& p.name == q.name
                &&& p.pid == q.pid
                &&& p.pagemap.top_level == q.pagemap.top_level
                &&& i != pi ==> p.pagemap == q.pagemap && p.next_tid == q.next_tid && p.children@
                    == q.children@
                &&& i == pi ==> p.next_tid == q.next_tid + 1 && p.children@ == q.children@.push(t)
            }
    }

    /// Every process has the children that it has in `old`.
    pub open spec fn same_children(&self, old: &Scheduler) -> bool {
        &&& self.processes@.len() == old.processes@.len()
        &&& forall|i: int|
            0 <= i < old.processes@.len() ==> {
                let p = #[trigger] self.processes@[i];
                let q = old.processes@[i];
                &&& p.name == q.name
                &&& p.pid == q.pid
                &&& p.pagemap.top_level == q.pagemap.top_level
                &&& p.children@ == q.children@
            }
    }

    /// What `spawn_with_args` leaves behind, `self` being the scheduler
    /// and `mem` the arena after the call.
    pub open spec fn spawned(
        &self,
        old: &Scheduler,
        mem: &PhysMemory,
        pid: u64,
        func: u64,
        name: &'static str,
        user: bool,
        args: Seq<String>,
        kstack: u64,
        ustack_phys: u64,
        r: Option<(u64, Vec<u8>)>,
    ) -> bool {
        &&& self.zombies == old.zombies
        &&& self.idle == old.idle
        &&& self.current == old.current
        &&& self.secondary_queue == old.secondary_queue
        &&& self.timeslice == old.timeslice
        &&& self.next_pid == old.next_pid
        &&& self.kernel_map == old.kernel_map
        &&& self.active_space == old.active_space
        &&& old.proc_index(pid) is None ==> r is None
        &&& r is None ==> self.queue == old.queue
        &&& r is Some ==> {
            let made = r->0;
            let tid = made.0;
            let pi = old.proc_index(pid)->0;
            let q = old.processes@[pi];
            let ustack = (old.next_ustack_addr - USER_STACK_SIZE) as u64;
            let t = self.processes@[pi].children@.last();
            &&& old.proc_index(pid) is Some
            &&& tid == q.next_tid
            &&& hands_out(q, self.processes@[pi], tid)
            &&& forall|i: int| 0 <= i < q.children@.len() ==> (#[trigger] q.children@[i]).tid < tid
            &&& self.child_added(old, pi, t)
            &&& self.thread(ThreadRef { pid, tid }) == Some(t)
            &&& t.name == name
            &&& t.tid == tid
            &&& t.args@ == args
            &&& t.entry == func
            &&& t.kstack == kstack
            &&& t.parent == pid
            &&& t.status == ThreadStatus::Ready
            &&& t.runtime == 0
            &&& t.schedule_time == 0
            &&& t.ustack == if user {
                ustack
            } else {
                0
            }
            &&& t.ustack_phys == if user {
                ustack_phys
            } else {
                0
            }
            &&& t.regs == initial_frame(
                func,
                user,
                kstack,
                t.ustack,
                if user {
                    args.len() as u64
                } else {
                    0
                },
            )
            &&& self.queue@ == old.queue@.push(ThreadRef { pid, tid })
            &&& self.next_ustack_addr == if user {
                ustack
            } else {
                old.next_ustack_addr
            }
            &&& made.1@ == if user {
                argv_image(args, ustack)
            } else {
                Seq::<u8>::empty()
            }
            &&& user ==> forall|off: u64|
                off < USER_STACK_SIZE ==> #[trigger] mem.translation(
                    q.pagemap.top_level,
                    (ustack + off) as u64,
                ) == Some((ustack_phys + off) as u64)
        }
    }

    /// A registry in which one process was changed, in a way that keeps
    /// that process valid and leaves its id alone, is valid, and finds
    /// every process where it was.
    pub proof fn lemma_process_changed(&self, old: &Scheduler, pi: int)
        requires
            old.wf(),
            0 <= pi < old.processes@.len(),
            self.processes@.len() == old.processes@.len(),
            self.next_pid == old.next_pid,
            forall|i: int|
                0 <= i < old.processes@.len() && i != pi ==> #[trigger] self.processes@[i]
                    == old.processes@[i],
            self.processes@[pi].pid == old.processes@[pi].pid,
            self.processes@[pi].wf(),
        ensures
            self.wf(),
            forall|pid: u64| #[trigger] self.proc_index(pid) == old.proc_index(pid),
    {
        assert forall|i: int| 0 <= i < self.processes@.len() implies (
        #[trigger] self.processes@[i]).wf() && self.processes@[i].pid < self.next_pid by {
            assert(old.processes@[i].wf());
        }
        assert forall|i: int, j: int| 0 <= i < j < self.processes@.len() implies (
        #[trigger] self.processes@[i]).pid != (#[trigger] self.processes@[j]).pid by {
            assert(old.processes@[i].pid != old.processes@[j].pid);
        }
        assert forall|pid: u64| #[trigger] self.proc_index(pid) == old.proc_index(pid) by {
            assert forall|i: int| self.is_proc(i, pid) == old.is_proc(i, pid) by {
                if 0 <= i < old.processes@.len() {
                    assert(self.processes@[i].pid == old.processes@[i].pid);
                }
            }
            if exists|i: int| is_proc_in(old.processes@, i, pid) {
                let a = choose|i: int| is_proc_in(old.processes@, i, pid);
                assert(self.is_proc(a, pid));
                let b = choose|i: int| is_proc_in(self.processes@, i, pid);
                assert(old.is_proc(b, pid));
                if a < b {
                    assert(old.processes@[a].pid != old.processes@[b].pid);
                }
                if b < a {
                    assert(old.processes@[b].pid != old.processes@[a].pid);
                }
            } else {
                if exists|i: int| is_proc_in(self.processes@, i, pid) {
                    let b = choose|i: int| is_proc_in(self.processes@, i, pid);
                    assert(old.is_proc(b, pid));
                }
            }
        }
    }

    /// What a pass makes of the registry when it reaps: every process
    /// keeps the children that are not dead, in their order, and no zombie
    /// is left. The page counters of the address spaces may have gone
    /// down.
    pub open spec fn reaped_from(&self, old: &Scheduler) -> bool {
        &&& self.zombies@.len() == 0
        &&& self.idle == old.idle
        &&& self.current == old.current
        &&& self.queue == old.queue
        &&& self.secondary_queue == old.secondary_queue
        &&& self.timeslice == old.timeslice
        &&& self.next_pid == old.next_pid
        &&& self.next_ustack_addr == old.next_ustack_addr
        &&& self.kernel_map == old.kernel_map
        &&& self.active_space == old.active_space
        &&& self.processes@.len() == old.processes@.len()
        &&& forall|i: int|
            0 <= i < old.processes@.len() ==> {
                let p = #[trigger] self.processes@[i];
                let q = old.processes@[i];
                &&& p.name == q.name
                &&& p.pid == q.pid
                &&& p.next_tid == q.next_tid
                &&& p.pagemap.top_level == q.pagemap.top_level
                &&& p.children@ == survivors(q.children@, q.children@.len() as int)
            }
    }

    /// Reaps every terminated thread of the registry and every zombie:
    /// the thread leaves the list of its process, its user stack is
    /// unmapped from the address space of its process, and what is left of
    /// it is handed to the caller, who gives the memory back.
    pub fn reap(&mut self, mem: &mut PhysMemory) -> (reaped: Vec<Reaped>)
        requires
            old(self).wf(),
            old(mem).wf(),
        ensures
            final(self).wf(),
            final(mem).wf(),
            final(mem).shrunk_from(old(mem)),
            final(self).reaped_from(old(self)),
            reaped@ == dead_in(old(self).processes@, old(self).processes@.len() as int)
                + zombie_records(old(self).zombies@, old(self).zombies@.len() as int),
            forall|i: int, c: int| #[trigger]
                dead_child(old(self).processes@, i, c) ==> stack_gone(
                    old(mem),
                    final(mem),
                    old(self).processes@[i].pagemap.top_level,
                    old(self).processes@[i].children@[c],
                ),
            forall|r: ThreadRef| #[trigger]
                final(self).thread(r) == match old(self).thread(r) {
                    Some(t) => if is_dead(t) {
                        None
                    } else {
                        Some(t)
                    },
                    None => None,
                },
    {
        let mut reaped: Vec<Reaped> = Vec::new();
        let n = self.processes.len();
        let mut pi: usize = 0;
        while pi < n
            invariant
                n == old(self).processes@.len(),
                n == self.processes@.len(),
                pi <= n,
                old(self).wf(),
                old(mem).wf(),
                mem.wf(),
                mem.shrunk_from(old(mem)),
                self.zombies == old(self).zombies,
                self.idle == old(self).idle,
                self.current == old(self).current,
                self.queue == old(self).queue,
                self.secondary_queue == old(self).secondary_queue,
                self.timeslice == old(self).timeslice,
                self.next_pid == old(self).next_pid,
                self.next_ustack_addr == old(self).next_ustack_addr,
                self.kernel_map == old(self).kernel_map,
                self.active_space == old(self).active_space,
                forall|i: int|
                    0 <= i < n ==> {
                        let p = #[trigger] self.processes@[i];
                        let q = old(self).processes@[i];
                        &&& p.name == q.name
                        &&& p.pid == q.pid
                        &&& p.next_tid == q.next_tid
                        &&& p.pagemap.top_level == q.pagemap.top_level
                        &&& p.children@ == if i < pi {
                            survivors(q.children@, q.children@.len() as int)
                        } else {
                            q.children@
                        }
                    },
                reaped@ == dead_in(old(self).processes@, pi as int),
                forall|i: int, c: int|
                    i < pi && #[trigger] dead_child(old(self).processes@, i, c) ==> stack_gone(
                        old(mem),
                        mem,
                        old(self).processes@[i].pagemap.top_level,
                        old(self).processes@[i].children@[c],
                    ),
            decreases n - pi,
        {
            let ghost kids = self.processes@[pi as int].children@;
            let ghost base = reaped@;
            let ghost root = self.processes@[pi as int].pagemap.top_level;
            let m = self.processes[pi].children.len();
            let mut k: usize = 0;
            let mut j: usize = 0;
            while k < m
                invariant
                    n == old(self).processes@.len(),
                    n == self.processes@.len(),
                    pi < n,
                    old(self).wf(),
                    old(mem).wf(),
                    mem.wf(),
                    mem.shrunk_from(old(mem)),
                    self.zombies == old(self).zombies,
                    self.idle == old(self).idle,
                    self.current == old(self).current,
                    self.queue == old(self).queue,
                    self.secondary_queue == old(self).secondary_queue,
                    self.timeslice == old(self).timeslice,
                    self.next_pid == old(self).next_pid,
                    self.next_ustack_addr == old(self).next_ustack_addr,
                    self.kernel_map == old(self).kernel_map,
                    self.active_space == old(self).active_space,
                    kids == old(self).processes@[pi as int].children@,
                    root == old(self).processes@[pi as int].pagemap.top_level,
                    m == kids.len(),
                    k <= m,
                    j == survivors(kids, k as int).len(),
                    j <= k,
                    forall|i: int|
                        0 <= i < n ==> {
                            let p = #[trigger] self.processes@[i];
                            let q = old(self).processes@[i];
                            &&& p.name == q.name
                            &&& p.pid == q.pid
                            &&& p.next_tid == q.next_tid
                            &&& p.pagemap.top_level == q.pagemap.top_level
                            &&& p.children@ == if i < pi {
                                survivors(q.children@, q.children@.len() as int)
                            } else if i == pi {
                                survivors(kids, k as int) + kids.subrange(k as int, m as int)
                            } else {
                                q.children@
                            }
                        },
                    reaped@ == base + dead_among(kids, k as int),
                    base == dead_in(old(self).processes@, pi as int),
                    forall|i: int, c: int|
                        i < pi && #[trigger] dead_child(old(self).processes@, i, c) ==> stack_gone(
                            old(mem),
                            mem,
                            old(self).processes@[i].pagemap.top_level,
                            old(self).processes@[i].children@[c],
                        ),
                    forall|c: int|
                        0 <= c < k && is_dead(#[trigger] kids[c]) ==> stack_gone(
                            old(mem),
                            mem,
                            root,
                            kids[c],
                        ),
                decreases m - k,
            {
                let ghost here = self.processes@[pi as int].children@;
                let ghost before = *mem;
                assert(here[j as int] == kids[k as int]);
                let dead = match self.processes[pi].children[j].status {
                    ThreadStatus::Terminated => true,
                    _ => false,
                };
                if dead {
                    let t = self.processes[pi].children.remove(j);
                    if t.ustack != 0 && t.ustack % 0x1000 == 0 && t.ustack <= u64::MAX
                        - USER_STACK_SIZE as u64 {
                        self.processes[pi].pagemap.unmap_stack(mem, t.ustack);
                    }
                    reaped.push(
                        Reaped {
                            pid: t.parent,
                            tid: t.tid,
                            kstack: t.kstack,
                            ustack: t.ustack,
                            ustack_phys: t.ustack_phys,
                        },
                    );
                    proof {
                        crate::mem::lemma_shrunk_trans(old(mem), &before, mem);
                        assert(self.processes@[pi as int].children@ =~= survivors(
                            kids,
                            k as int + 1,
                        ) + kids.subrange(k as int + 1, m as int));
                        assert(reaped@ =~= base + dead_among(kids, k as int + 1));
                        assert forall|i: int, c: int|
                            i < pi && #[trigger] dead_child(
                                old(self).processes@,
                                i,
                                c,
                            ) implies stack_gone(
                            old(mem),
                            mem,
                            old(self).processes@[i].pagemap.top_level,
                            old(self).processes@[i].children@[c],
                        ) by {
                            lemma_gone_stays(
                                old(mem),
                                &before,
                                mem,
                                old(self).processes@[i].pagemap.top_level,
                                old(self).processes@[i].children@[c],
                            );
                        }
                        assert forall|c: int| 0 <= c < k + 1 && is_dead(
                            #[trigger] kids[c],
                        ) implies stack_gone(old(mem), mem, root, kids[c]) by {
                            if c < k {
                                lemma_gone_stays(old(mem), &before, mem, root, kids[c]);
                            }
                        }
                    }
                } else {
                    proof {
                        assert(self.processes@[pi as int].children@ =~= survivors(
                            kids,
                            k as int + 1,
                        ) + kids.subrange(k as int + 1, m as int));
                    }
                    j = j + 1;
                }
                k = k + 1;
            }
            proof {
                assert(self.processes@[pi as int].children@ =~= survivors(kids, m as int));
                assert forall|i: int, c: int|
                    i < pi + 1 && #[trigger] dead_child(
                        old(self).processes@,
                        i,
                        c,
                    ) implies stack_gone(
                    old(mem),
                    mem,
                    old(self).processes@[i].pagemap.top_level,
                    old(self).processes@[i].children@[c],
                ) by {
                    if i == pi {
                        assert(is_dead(kids[c]));
                    }
                }
            }
            pi = pi + 1;
        }
        let ghost base = reaped@;
        let z = self.zombies.len();
        let mut i: usize = 0;
        while i < z
            invariant
                i <= z,
                z == self.zombies@.len(),
                self.zombies == old(self).zombies,
                reaped@ == base + zombie_records(self.zombies@, i as int),
            decreases z - i,
        {
            let t = &self.zombies[i];
            reaped.push(
                Reaped {
                    pid: t.parent,
                    tid: t.tid,
                    kstack: t.kstack,
                    ustack: t.ustack,
                    ustack_phys: t.ustack_phys,
                },
            );
            assert(reaped@ =~= base + zombie_records(self.zombies@, i as int + 1));
            i = i + 1;
        }
        self.zombies.clear();
        proof {
            self.lemma_reaped(old(self));
        }
        reaped
    }

    /// A registry that was reaped is valid, and finds every thread that
    /// was not dead where it was and no thread that was.
    pub proof fn lemma_reaped(&self, old: &Scheduler)
        requires
            old.wf(),
            self.next_pid == old.next_pid,
            self.processes@.len() == old.processes@.len(),
            forall|i: int|
                0 <= i < old.processes@.len() ==> {
                    let p = #[trigger] self.processes@[i];
                    let q = old.processes@[i];
                    &&& p.pid == q.pid
                    &&& p.next_tid == q.next_tid
                    &&& p.children@ == survivors(q.children@, q.children@.len() as int)
                },
        ensures
            self.wf(),
            forall|r: ThreadRef| #[trigger]
                self.thread(r) == match old.thread(r) {
                    Some(t) => if is_dead(t) {
                        None
                    } else {
                        Some(t)
                    },
                    None => None,
                },
    {
        assert forall|i: int| 0 <= i < self.processes@.len() implies (
        #[trigger] self.processes@[i]).wf() && self.processes@[i].pid < self.next_pid by {
            let p = self.processes@[i];
            let q = old.processes@[i];
            assert(q.wf());
            let n = q.children@.len() as int;
            assert forall|c: int| 0 <= c < p.children@.len() implies (#[trigger] p.children@[c]).tid
                < p.next_tid && p.children@[c].parent == p.pid by {
                lemma_survivor_origin(q.children@, n, c);
                assert(q.children@[origin(q.children@, n, c)].tid < q.next_tid);
            }
            assert forall|a: int, b: int| 0 <= a < b < p.children@.len() implies (
            #[trigger] p.children@[a]).tid != (#[trigger] p.children@[b]).tid by {
                lemma_survivors_distinct(q.children@, n, a, b);
            }
        }
        assert forall|i: int, j: int| 0 <= i < j < self.processes@.len() implies (
        #[trigger] self.processes@[i]).pid != (#[trigger] self.processes@[j]).pid by {
            assert(old.processes@[i].pid != old.processes@[j].pid);
        }
        assert forall|r: ThreadRef| #[trigger]
            self.thread(r) == match old.thread(r) {
                Some(t) => if is_dead(t) {
                    None
                } else {
                    Some(t)
                },
                None => None,
            } by {
            lemma_same_pids(old.processes@, self.processes@, r.pid);
            if proc_index_in(old.processes@, r.pid) is Some {
                let i = proc_index_in(old.processes@, r.pid)->0;
                assert(old.processes@[i].wf());
                lemma_survivor_lookup(old.processes@[i].children@, r.tid);
            }
        }
    }

    /// The registry finds under `r` the thread `t`, and under every other
    /// name what `old` finds.
    pub open spec fn found_replaced(&self, old: &Scheduler, r: ThreadRef, t: Thread) -> bool {
        forall|q: ThreadRef| #[trigger]
            self.thread(q) == if q == r {
                Some(t)
            } else {
                old.thread(q)
            }
    }

    /// Replacing a thread by one of the same name keeps the registry valid
    /// and every other thread where it was.
    pub proof fn lemma_replaced(&self, old: &Scheduler, pi: int, ti: int, t: Thread)
        requires
            old.wf(),
            self.next_pid == old.next_pid,
            0 <= pi < old.processes@.len(),
            0 <= ti < old.processes@[pi].children@.len(),
            self.replaced(old, pi, ti, t),
            t.tid == old.processes@[pi].children@[ti].tid,
            t.parent == old.processes@[pi].children@[ti].parent,
        ensures
            self.wf(),
            self.found_replaced(old, ref_of(t), t),
            old.thread(ref_of(t)) == Some(old.processes@[pi].children@[ti]),
    {
        let before = old.processes@[pi];
        let after = self.processes@[pi];
        assert(before.wf());
        assert(after.wf()) by {
            assert forall|i: int| 0 <= i < after.children@.len() implies (
            #[trigger] after.children@[i]).tid < after.next_tid && after.children@[i].parent
                == after.pid by {
                assert(before.children@[i].tid < before.next_tid);
            }
            assert forall|i: int, j: int| 0 <= i < j < after.children@.len() implies (
            #[trigger] after.children@[i]).tid != (#[trigger] after.children@[j]).tid by {
                assert(before.children@[i].tid != before.children@[j].tid);
            }
        }
        assert forall|i: int| 0 <= i < self.processes@.len() implies (
        #[trigger] self.processes@[i]).wf() && self.processes@[i].pid < self.next_pid by {
            let p = self.processes@[i];
            let q = old.processes@[i];
            assert(q.wf());
            if i != pi {
                assert forall|c: int| 0 <= c < p.children@.len() implies (
                #[trigger] p.children@[c]).tid < p.next_tid && p.children@[c].parent == p.pid by {
                    assert(q.children@[c].tid < q.next_tid);
                }
                assert forall|a: int, b: int| 0 <= a < b < p.children@.len() implies (
                #[trigger] p.children@[a]).tid != (#[trigger] p.children@[b]).tid by {
                    assert(q.children@[a].tid != q.children@[b].tid);
                }
            }
        }
        assert forall|i: int, j: int| 0 <= i < j < self.processes@.len() implies (
        #[trigger] self.processes@[i]).pid != (#[trigger] self.processes@[j]).pid by {
            assert(old.processes@[i].pid != old.processes@[j].pid);
        }
        let r = ref_of(t);
        assert(old.is_proc(pi, r.pid));
        assert(before.is_child(ti, r.tid));
        old.lemma_lookup(r, pi, ti);
        assert(self.is_proc(pi, r.pid));
        assert(after.is_child(ti, r.tid));
        self.lemma_lookup(r, pi, ti);
        assert forall|q: ThreadRef| #[trigger]
            self.thread(q) == if q == r {
                Some(t)
            } else {
                old.thread(q)
            } by {
            if q != r {
                lemma_same_pids(old.processes@, self.processes@, q.pid);
                if proc_index_in(old.processes@, q.pid) is Some {
                    let i = proc_index_in(old.processes@, q.pid)->0;
                    let a = old.processes@[i].children@;
                    let b = self.processes@[i].children@;
                    assert(old.processes@[i].wf());
                    assert(self.processes@[i].wf());
                    assert forall|c: int| is_child_in(a, c, q.tid) == is_child_in(b, c, q.tid) by {
                        if 0 <= c < a.len() {
                            assert(a[c].tid == b[c].tid);
                        }
                    }
                    if exists|c: int| is_child_in(a, c, q.tid) {
                        let x = choose|c: int| is_child_in(a, c, q.tid);
                        assert(is_child_in(b, x, q.tid));
                        let y = choose|c: int| is_child_in(b, c, q.tid);
                        if x < y {
                            assert(a[x].tid != a[y].tid);
                        }
                        if y < x {
                            assert(a[y].tid != a[x].tid);
                        }
                        if i == pi {
                            assert(x != ti);
                        }
                        assert(b[x] == a[x]);
                    } else {
                        if exists|c: int| is_child_in(b, c, q.tid) {
                            let y = choose|c: int| is_child_in(b, c, q.tid);
                            assert(is_child_in(a, y, q.tid));
                        }
                    }
                }
            }
        }
    }

    /// Counts the time that the thread with the processor has had it, and
    /// keeps `regs` as its registers. Returns the name of that thread if
    /// it is one of the registry.
    pub fn account(&mut self, regs: &StackFrame, now: u64) -> (prev: Option<ThreadRef>)
        requires
            old(self).wf(),
        ensures
            final(self).wf(),
            prev == old(self).running(),
            final(self).zombies == old(self).zombies,
            final(self).current == old(self).current,
            final(self).queue == old(self).queue,
            final(self).secondary_queue == old(self).secondary_queue,
            final(self).timeslice == old(self).timeslice,
            final(self).next_pid == old(self).next_pid,
            final(self).next_ustack_addr == old(self).next_ustack_addr,
            final(self).kernel_map == old(self).kernel_map,
            final(self).active_space == old(self).active_space,
            final(self).idle == if old(self).current == Current::Idle {
                accounted(old(self).idle, *regs, now)
            } else {
                old(self).idle
            },
            prev is None ==> final(self).processes == old(self).processes,
            prev is Some ==> {
                let r = prev->0;
                let pi = old(self).proc_index(r.pid)->0;
                let ti = old(self).processes@[pi].child_index(r.tid)->0;
                &&& final(self).replaced(
                    old(self),
                    pi,
                    ti,
                    accounted(old(self).thread(r)->0, *regs, now),
                )
                &&& final(self).found_replaced(
                    old(self),
                    r,
                    accounted(old(self).thread(r)->0, *regs, now),
                )
            },
    {
        match self.current {
            Current::Nothing => None,
            Current::Idle => {
                let since = self.idle.schedule_time;
                let run = if now >= since {
                    now - since
                } else {
                    0
                };
                self.idle.runtime = if self.idle.runtime > u64::MAX - run {
                    u64::MAX
                } else {
                    self.idle.runtime + run
                };
                self.idle.regs = *regs;
                match self.idle.status {
                    ThreadStatus::Running => {
                        self.idle.status = ThreadStatus::Ready;
                    },
                    _ => {},
                }
                None
            },
            Current::Thread(r) => match self.find_thread(r) {
                None => None,
                Some((pi, ti)) => {
                    let ghost t = self.processes@[pi as int].children@[ti as int];
                    let since = self.processes[pi].children[ti].schedule_time;
                    let had = self.processes[pi].children[ti].runtime;
                    let run = if now >= since {
                        now - since
                    } else {
                        0
                    };
                    self.processes[pi].children[ti].runtime = if had > u64::MAX - run {
                        u64::MAX
                    } else {
                        had + run
                    };
                    self.processes[pi].children[ti].regs = *regs;
                    match self.processes[pi].children[ti].status {
                        ThreadStatus::Running => {
                            self.processes[pi].children[ti].status = ThreadStatus::Ready;
                        },
                        _ => {},
                    }
                    proof {
                        assert(self.processes@[pi as int].children@ =~= old(
                            self,
                        ).processes@[pi as int].children@.update(
                            ti as int,
                            accounted(t, *regs, now),
                        ));
                        assert(ref_of(t) == r);
                        self.lemma_replaced(old(self), pi as int, ti as int, accounted(t, *regs, now));
                    }
                    Some(r)
                },
            },
        }
    }

    /// The entry of the ready structure that a pass at `now` picks: the
    /// first of those that name a thread that may run and has run least.
    /// `None` where no entry names a thread that may run.
    pub fn pick(&self, now: u64) -> (r: Option<usize>)
        requires
            self.wf(),
        ensures
            r is None <==> forall|k: int| !#[trigger] is_candidate(self.processes@, self.queue@, k, now),
            r is Some ==> is_pick(self.processes@, self.queue@, r->0 as int, now),
    {
        let mut best: Option<usize> = None;
        let mut least: u64 = 0;
        let mut k: usize = 0;
        while k < self.queue.len()
            invariant
                self.wf(),
                k <= self.queue@.len(),
                best is None ==> forall|i: int|
                    0 <= i < k ==> !#[trigger] is_candidate(self.processes@, self.queue@, i, now),
                best is Some ==> {
                    let b = best->0 as int;
                    &&& b < k
                    &&& is_candidate(self.processes@, self.queue@, b, now)
                    &&& least == lookup(self.processes@, self.queue@[b])->0.runtime
                    &&& forall|i: int|
                        0 <= i < k && #[trigger] is_candidate(self.processes@, self.queue@, i, now)
                            ==> least <= lookup(self.processes@, self.queue@[i])->0.runtime && (i
                            < b ==> least < lookup(self.processes@, self.queue@[i])->0.runtime)
                },
            decreases self.queue@.len() - k,
        {
            let h = self.queue[k];
            match self.get_thread(h) {
                None => {},
                Some(t) => {
                    let runnable = match t.status {
                        ThreadStatus::Ready => true,
                        ThreadStatus::Sleeping(when) => when <= now,
                        _ => false,
                    };
                    if runnable {
                        match best {
                            None => {
                                best = Some(k);
                                least = t.runtime;
                            },
                            Some(_) => {
                                if t.runtime < least {
                                    best = Some(k);
                                    least = t.runtime;
                                }
                            },
                        }
                    }
                },
            }
            k = k + 1;
        }
        best
    }

    /// Gives the processor to the thread that entry `pick` of the ready
    /// structure names, and takes the entry out; to the idle thread where
    /// there is no entry. The result names who runs, with the registers
    /// and the root table to run with, and says whether that root table
    /// is another than the one in use.
    pub fn dispatch(&mut self, pick: Option<usize>, now: u64) -> (out: (
        Current,
        StackFrame,
        u64,
        bool,
    ))
        requires
            old(self).wf(),
            pick is Some ==> is_candidate(old(self).processes@, old(self).queue@, pick->0 as int, now),
        ensures
            final(self).wf(),
            final(self).current == out.0,
            final(self).zombies == old(self).zombies,
            final(self).secondary_queue == old(self).secondary_queue,
            final(self).timeslice == old(self).timeslice,
            final(self).next_pid == old(self).next_pid,
            final(self).next_ustack_addr == old(self).next_ustack_addr,
            final(self).kernel_map == old(self).kernel_map,
            final(self).active_space == out.2,
            out.3 == (out.2 != old(self).active_space),
            pick is None ==> {
                &&& out.0 == Current::Idle
                &&& out.1 == old(self).idle.regs
                &&& out.2 == old(self).kernel_map.top_level
                &&& final(self).idle == dispatched(old(self).idle, now)
                &&& final(self).processes == old(self).processes
                &&& final(self).queue == old(self).queue
            },
            pick is Some ==> {
                let r = old(self).queue@[pick->0 as int];
                let t = old(self).thread(r)->0;
                let pi = old(self).proc_index(r.pid)->0;
                let ti = old(self).processes@[pi].child_index(r.tid)->0;
                &&& out.0 == Current::Thread(r)
                &&& out.1 == t.regs
                &&& out.2 == old(self).processes@[pi].pagemap.top_level
                &&& final(self).idle == old(self).idle
                &&& final(self).queue@ == old(self).queue@.remove(pick->0 as int)
                &&& final(self).replaced(old(self), pi, ti, dispatched(t, now))
                &&& final(self).found_replaced(old(self), r, dispatched(t, now))
            },
    {
        match pick {
            None => {
                let frame = self.idle.regs;
                let space = self.kernel_map.top_level;
                let switch = space != self.active_space;
                self.idle.status = ThreadStatus::Running;
                self.idle.schedule_time = now;
                self.current = Current::Idle;
                self.active_space = space;
                (Current::Idle, frame, space, switch)
            },
            Some(b) => {
                let r = self.queue.remove(b);
                match self.find_thread(r) {
                    None => (Current::Idle, self.idle.regs, self.kernel_map.top_level, false),
                    Some((pi, ti)) => {
                        let ghost t = self.processes@[pi as int].children@[ti as int];
                        let frame = self.processes[pi].children[ti].regs;
                        let space = self.processes[pi].pagemap.top_level;
                        let switch = space != self.active_space;
                        self.processes[pi].children[ti].status = ThreadStatus::Running;
                        self.processes[pi].children[ti].schedule_time = now;
                        self.current = Current::Thread(r);
                        self.active_space = space;
                        proof {
                            assert(self.processes@[pi as int].children@ =~= old(
                                self,
                            ).processes@[pi as int].children@.update(ti as int, dispatched(t, now)));
                            assert(ref_of(t) == r) by {
                                assert(old(self).processes@[pi as int].wf());
                            }
                            self.lemma_replaced(old(self), pi as int, ti as int, dispatched(t, now));
                        }
                        (Current::Thread(r), frame, space, switch)
                    },
                }
            },
        }
    }

    /// Adds to `ready` those of `src` that name a thread that is there and
    /// not blocked, and to `holding` those that name a blocked thread.
    pub fn sort_out(&self, src: &Vec<ThreadRef>, ready: &mut Vec<ThreadRef>, holding: &mut Vec<ThreadRef>)
        requires
            self.wf(),
        ensures
            final(ready)@ == old(ready)@ + kept(self.processes@, src@, src@.len() as int),
            final(holding)@ == old(holding)@ + parked(self.processes@, src@, src@.len() as int),
    {
        let mut i: usize = 0;
        while i < src.len()
            invariant
                self.wf(),
                i <= src@.len(),
                ready@ == old(ready)@ + kept(self.processes@, src@, i as int),
                holding@ == old(holding)@ + parked(self.processes@, src@, i as int),
            decreases src@.len() - i,
        {
            let h = src[i];
            match self.get_thread(h) {
                None => {},
                Some(t) => {
                    let blocked = match t.status {
                        ThreadStatus::Blocked => true,
                        _ => false,
                    };
                    if blocked {
                        holding.push(h);
                    } else {
                        ready.push(h);
                    }
                },
            }
            assert(ready@ =~= old(ready)@ + kept(self.processes@, src@, i as int + 1));
            assert(holding@ =~= old(holding)@ + parked(self.processes@, src@, i as int + 1));
            i = i + 1;
        }
    }

    /// Rebuilds the two structures after a pass has chosen: the ready
    /// structure holds the names of the threads that are there and not
    /// blocked, first those that it held, then those of the holding
    /// structure, then `prev`; the holding structure holds the names of
    /// the blocked threads, first its own, then those of the ready
    /// structure, then `prev`. Names of threads that are gone are dropped.
    pub fn requeue(&mut self, prev: Option<ThreadRef>)
        requires
            old(self).wf(),
        ensures
            final(self).wf(),
            final(self).processes == old(self).processes,
            final(self).zombies == old(self).zombies,
            final(self).idle == old(self).idle,
            final(self).current == old(self).current,
            final(self).timeslice == old(self).timeslice,
            final(self).next_pid == old(self).next_pid,
            final(self).next_ustack_addr == old(self).next_ustack_addr,
            final(self).kernel_map == old(self).kernel_map,
            final(self).active_space == old(self).active_space,
            final(self).queue@ == requeued(
                old(self).processes@,
                old(self).queue@,
                old(self).secondary_queue@,
                prev,
            ),
            final(self).secondary_queue@ == reheld(
                old(self).processes@,
                old(self).queue@,
                old(self).secondary_queue@,
                prev,
            ),
    {
        let mut held: Vec<ThreadRef> = Vec::new();
        let n = self.secondary_queue.len();
        let mut i: usize = 0;
        while i < n
            invariant
                i <= n,
                n == self.secondary_queue@.len(),
                held@ == self.secondary_queue@.subrange(0, i as int),
            decreases n - i,
        {
            held.push(self.secondary_queue[i]);
            assert(held@ =~= self.secondary_queue@.subrange(0, i as int + 1));
            i = i + 1;
        }
        assert(held@ =~= self.secondary_queue@);
        let mut last: Vec<ThreadRef> = Vec::new();
        match prev {
            Some(r) => {
                last.push(r);
            },
            None => {},
        }
        assert(last@ =~= prev_seq(prev));
        let mut ready: Vec<ThreadRef> = Vec::new();
        let mut holding: Vec<ThreadRef> = Vec::new();
        let mut spare: Vec<ThreadRef> = Vec::new();
        let mut later: Vec<ThreadRef> = Vec::new();
        self.sort_out(&self.queue, &mut ready, &mut later);
        self.sort_out(&held, &mut ready, &mut holding);
        self.sort_out(&last, &mut ready, &mut spare);
        let ghost parked_queue = later@;
        let ghost parked_prev = spare@;
        holding.append(&mut later);
        holding.append(&mut spare);
        let mut deque: VecDeque<ThreadRef> = VecDeque::new();
        let m = holding.len();
        let mut j: usize = 0;
        while j < m
            invariant
                j <= m,
                m == holding@.len(),
                deque@ == holding@.subrange(0, j as int),
            decreases m - j,
        {
            deque.push_back(holding[j]);
            assert(deque@ =~= holding@.subrange(0, j as int + 1));
            j = j + 1;
        }
        assert(deque@ =~= holding@);
        self.queue = ready;
        self.secondary_queue = deque;
    }

    /// What one pass at the time `now`, on the trap whose frame is `regs`,
    /// makes of the scheduler `old`, `self` being the scheduler after it
    /// and `next`, `frame` and `space` what it hands back.
    ///
    /// The registry keeps the threads that were not dead. The thread that
    /// had the processor has its time counted; the thread that gets it is
    /// running from `now` on; every other thread is as it was. The choice
    /// is the first entry of the ready structure among those that may be
    /// picked and have run least, and the idle thread where no entry may
    /// be picked. `frame` holds the registers of the thread chosen and
    /// `space` the root table of its process, or that of the kernel for
    /// the idle thread. The two structures are rebuilt from what they
    /// held, the choice left out, and from the thread that had the
    /// processor unless it was chosen again.
    #[verifier::opaque]
    pub open spec fn pass_outcome(
        &self,
        old: &Scheduler,
        regs: StackFrame,
        now: u64,
        next: Current,
        frame: StackFrame,
        space: u64,
    ) -> bool {
        let idle = if old.current == Current::Idle {
            accounted(old.idle, regs, now)
        } else {
            old.idle
        };
        &&& self.current == next
        &&& self.settled_from(old)
        &&& forall|r: ThreadRef| #[trigger]
            self.thread(r) == match seen(old.processes@, old.current, r, regs, now) {
                Some(t) => Some(
                    if next == Current::Thread(r) {
                        dispatched(t, now)
                    } else {
                        t
                    },
                ),
                None => None,
            }
        &&& next != Current::Nothing
        &&& next == Current::Idle <==> forall|k: int|
            !#[trigger] may_pick(old.processes@, old.current, old.queue@, k, regs, now)
        &&& next == Current::Idle ==> {
            &&& self.idle == dispatched(idle, now)
            &&& frame == idle.regs
            &&& space == old.kernel_map.top_level
            &&& self.queue@ == requeued(
                self.processes@,
                old.queue@,
                old.secondary_queue@,
                name_of(old.current),
            )
            &&& self.secondary_queue@ == reheld(
                self.processes@,
                old.queue@,
                old.secondary_queue@,
                name_of(old.current),
            )
        }
        &&& next is Thread ==> {
            let r = next->Thread_0;
            let t = seen(old.processes@, old.current, r, regs, now)->0;
            let prev = if name_of(old.current) == Some(r) {
                None
            } else {
                name_of(old.current)
            };
            &&& self.idle == idle
            &&& frame == t.regs
            &&& old.proc_index(r.pid) is Some
            &&& space == old.processes@[old.proc_index(r.pid)->0].pagemap.top_level
            &&& exists|b: int|
                {
                    &&& #[trigger] is_choice(
                        old.processes@,
                        old.current,
                        old.queue@,
                        b,
                        regs,
                        now,
                    )
                    &&& old.queue@[b] == r
                    &&& self.queue@ == requeued(
                        self.processes@,
                        old.queue@.remove(b),
                        old.secondary_queue@,
                        prev,
                    )
                    &&& self.secondary_queue@ == reheld(
                        self.processes@,
                        old.queue@.remove(b),
                        old.secondary_queue@,
                        prev,
                    )
                }
        }
    }

    /// The processes are those of `old`, each with the children that were
    /// not dead, in their order and under their names.
    pub open spec fn settled_from(&self, old: &Scheduler) -> bool {
        &&& self.processes@.len() == old.processes@.len()
        &&& forall|i: int|
            0 <= i < old.processes@.len() ==> {
                let p = #[trigger] self.processes@[i];
                let q = old.processes@[i];
                let left = survivors(q.children@, q.children@.len() as int);
                &&& p.name == q.name
                &&& p.pid == q.pid
                &&& p.next_tid == q.next_tid
                &&& p.pagemap.top_level == q.pagemap.top_level
                &&& p.children@.len() == left.len()
                &&& forall|c: int|
                    0 <= c < left.len() ==> ref_of(#[trigger] p.children@[c]) == ref_of(left[c])
            }
    }

    /// A registry in which threads were replaced by threads of the same
    /// name is settled from what its predecessor was settled from.
    pub proof fn lemma_settled(&self, mid: &Scheduler, old: &Scheduler)
        requires
            mid.processes@.len() == old.processes@.len(),
            mid.settled_from(old) || mid.reaped_from(old),
            self.processes@.len() == mid.processes@.len(),
            forall|i: int|
                0 <= i < mid.processes@.len() ==> {
                    let p = #[trigger] self.processes@[i];
                    let q = mid.processes@[i];
                    &&& p.name == q.name
                    &&& p.pid == q.pid
                    &&& p.next_tid == q.next_tid
                    &&& p.pagemap.top_level == q.pagemap.top_level
                    &&& p.children@.len() == q.children@.len()
                    &&& forall|c: int|
                        0 <= c < q.children@.len() ==> ref_of(#[trigger] p.children@[c]) == ref_of(
                            q.children@[c],
                        )
                },
        ensures
            self.settled_from(old),
    {
        assert forall|i: int| 0 <= i < old.processes@.len() implies {
            let p = #[trigger] self.processes@[i];
            let q = old.processes@[i];
            let left = survivors(q.children@, q.children@.len() as int);
            &&& p.name == q.name
            &&& p.pid == q.pid
            &&& p.next_tid == q.next_tid
            &&& p.pagemap.top_level == q.pagemap.top_level
            &&& p.children@.len() == left.len()
            &&& forall|c: int|
                0 <= c < left.len() ==> ref_of(#[trigger] p.children@[c]) == ref_of(left[c])
        } by {
            let p = self.processes@[i];
            let m = mid.processes@[i];
            let q = old.processes@[i];
            let left = survivors(q.children@, q.children@.len() as int);
            assert(m.children@.len() == left.len());
            assert forall|c: int| 0 <= c < left.len() implies ref_of(#[trigger] p.children@[c])
                == ref_of(left[c]) by {
                assert(ref_of(p.children@[c]) == ref_of(m.children@[c]));
                assert(ref_of(m.children@[c]) == ref_of(left[c]));
            }
        }
    }

    /// The place of the process with id `pid`.
    pub fn find_process(&self, pid: u64) -> (r: Option<usize>)
        requires
            self.wf(),
        ensures
            r is Some == self.proc_index(pid) is Some,
            r is Some ==> r->0 == self.proc_index(pid)->0 && self.is_proc(r->0 as int, pid),
    {
        let mut i: usize = 0;
        while i < self.processes.len()
            invariant
                self.wf(),
                i <= self.processes@.len(),
                forall|j: int| 0 <= j < i ==> !is_proc_in(self.processes@, j, pid),
            decreases self.processes@.len() - i,
        {
            if self.processes[i].pid == pid {
                proof {
                    assert(self.is_proc(i as int, pid));
                    let j = choose|j: int| is_proc_in(self.processes@, j, pid);
                    if i < j {
                        assert(self.processes@[i as int].pid != self.processes@[j].pid);
                    }
                }
                return Some(i);
            }
            i = i + 1;
        }
        None
    }

    /// The places of the process and of the thread that `r` names.
    pub fn find_thread(&self, r: ThreadRef) -> (at: Option<(usize, usize)>)
        requires
            self.wf(),
        ensures
            at is Some == self.thread(r) is Some,
            at is Some ==> {
                let (pi, ti) = at->0;
                &&& self.is_proc(pi as int, r.pid)
                &&& self.processes@[pi as int].is_child(ti as int, r.tid)
                &&& self.proc_index(r.pid) == Some(pi as int)
                &&& self.processes@[pi as int].child_index(r.tid) == Some(ti as int)
                &&& self.thread(r) == Some(self.processes@[pi as int].children@[ti as int])
            },
    {
        match self.find_process(r.pid) {
            None => None,
            Some(pi) => match self.processes[pi].find_child(r.tid) {
                None => None,
                Some(ti) => Some((pi, ti)),
            },
        }
    }

    /// The thread that `r` names.
    pub fn get_thread(&self, r: ThreadRef) -> (t: Option<&Thread>)
        requires
            self.wf(),
        ensures
            t is Some == self.thread(r) is Some,
            t is Some ==> *t->0 == self.thread(r)->0,
    {
        match self.find_thread(r) {
            Some((pi, ti)) => Some(&self.processes[pi].children[ti]),
            None => None,
        }
    }

    /// Puts the status of the running thread to `status`. Returns whether
    /// a thread of the registry is running.
    pub fn set_current_status(&mut self, status: ThreadStatus) -> (found: bool)
        requires
            old(self).wf(),
        ensures
            final(self).wf(),
            final(self).same_queues(old(self)),
            found == old(self).running() is Some,
            !found ==> final(self).processes == old(self).processes,
            found ==> {
                let r = old(self).running()->0;
                let pi = old(self).proc_index(r.pid)->0;
                let ti = old(self).processes@[pi].child_index(r.tid)->0;
                &&& final(self).replaced(
                    old(self),
                    pi,
                    ti,
                    old(self).thread(r)->0.with_status(status),
                )
                &&& final(self).thread(r) == Some(old(self).thread(r)->0.with_status(status))
                &&& final(self).found_replaced(
                    old(self),
                    r,
                    old(self).thread(r)->0.with_status(status),
                )
            },
    {
        let r = match self.current {
            Current::Thread(r) => r,
            _ => { return false; },
        };
        match self.find_thread(r) {
            None => false,
            Some((pi, ti)) => {
                let ghost t = self.processes@[pi as int].children@[ti as int];
                self.put_status(pi, ti, status);
                proof {
                    assert(ref_of(t) == r) by {
                        assert(old(self).processes@[pi as int].wf());
                    }
                    self.lemma_replaced(old(self), pi as int, ti as int, t.with_status(status));
                    assert(self.thread(r) == Some(t.with_status(status)));
                }
                true
            },
        }
    }

    /// Puts the status of child `ti` of process `pi` to `status`.
    pub fn put_status(&mut self, pi: usize, ti: usize, status: ThreadStatus)
        requires
            old(self).wf(),
            pi < old(self).processes@.len(),
            ti < old(self).processes@[pi as int].children@.len(),
        ensures
            final(self).wf(),
            final(self).same_queues(old(self)),
            final(self).replaced(
                old(self),
                pi as int,
                ti as int,
                old(self).processes@[pi as int].children@[ti as int].with_status(status),
            ),
    {
        let ghost before = self.processes@[pi as int];
        self.processes[pi].children[ti].status = status;
        proof {
            let after = self.processes@[pi as int];
            assert(after.children@ =~= before.children@.update(
                ti as int,
                before.children@[ti as int].with_status(status),
            ));
            assert(after.wf()) by {
                assert forall|i: int| 0 <= i < after.children@.len() implies (
                #[trigger] after.children@[i]).tid < after.next_tid && after.children@[i].parent
                    == after.pid by {
                    assert(before.children@[i].tid < before.next_tid);
                }
                assert forall|i: int, j: int| 0 <= i < j < after.children@.len() implies (
                #[trigger] after.children@[i]).tid != (#[trigger] after.children@[j]).tid by {
                    assert(before.children@[i].tid != before.children@[j].tid);
                }
            }
            assert forall|i: int| 0 <= i < self.processes@.len() implies (
            #[trigger] self.processes@[i]).wf() && self.processes@[i].pid < self.next_pid by {
                if i != pi {
                    assert(self.processes@[i] == old(self).processes@[i]);
                }
                assert(old(self).processes@[i].wf());
            }
            assert forall|i: int, j: int| 0 <= i < j < self.processes@.len() implies (
            #[trigger] self.processes@[i]).pid != (#[trigger] self.processes@[j]).pid by {
                assert(old(self).processes@[i].pid != old(self).processes@[j].pid);
            }
        }
    }

    /// In a valid registry, the process at `pi` with the id `r.pid` and
    /// its child at `ti` with the id `r.tid` are what `r` names.
    pub proof fn lemma_lookup(&self, r: ThreadRef, pi: int, ti: int)
        requires
            self.wf(),
            self.is_proc(pi, r.pid),
            self.processes@[pi].is_child(ti, r.tid),
        ensures
            self.proc_index(r.pid) == Some(pi),
            self.processes@[pi].child_index(r.tid) == Some(ti),
            self.thread(r) == Some(self.processes@[pi].children@[ti]),
    {
        let p = self.processes@[pi];
        assert(p.wf());
        let pj = choose|i: int| is_proc_in(self.processes@, i, r.pid);
        assert(pj == pi) by {
            if pj < pi {
                assert(self.processes@[pj].pid != self.processes@[pi].pid);
            }
            if pi < pj {
                assert(self.processes@[pi].pid != self.processes@[pj].pid);
            }
        }
        let tj = choose|i: int| is_child_in(p.children@, i, r.tid);
        assert(tj == ti) by {
            if tj < ti {
                assert(p.children@[tj].tid != p.children@[ti].tid);
            }
            if ti < tj {
                assert(p.children@[ti].tid != p.children@[tj].tid);
            }
        }
    }

}

/// The scheduler at boot: the kernel process, with id 0 and the
/// kernel's own address space, no thread but the idle thread, which
/// starts at `idle_entry` on the kernel stack at `idle_kstack`, and
/// nothing queued.
pub fn init(kernel_map: Pagemap, idle_entry: u64, idle_kstack: u64) -> (s: Scheduler)
    requires
        idle_kstack + KERNEL_STACK_SIZE <= u64::MAX,
    ensures
        s.wf(),
        s.processes@.len() == 1,
        s.processes@[0].pid == 0,
        s.processes@[0].name == "kernel",
        s.processes@[0].pagemap == kernel_map,
        s.processes@[0].next_tid == 1,
        s.processes@[0].children@.len() == 0,
        s.zombies@.len() == 0,
        s.idle.tid == IDLE_TID,
        s.idle.name == "idle",
        s.idle.parent == 0,
        s.idle.status == ThreadStatus::Ready,
        s.idle.runtime == 0,
        s.idle.kstack == idle_kstack,
        s.idle.ustack == 0,
        s.idle.regs == initial_frame(idle_entry, false, idle_kstack, 0, 0),
        s.idle.entry == idle_entry,
        s.idle.ustack_phys == 0,
        s.idle.schedule_time == 0,
        s.idle.args@ == Seq::<String>::empty(),
        s.current == Current::Nothing,
        s.queue@.len() == 0,
        s.secondary_queue@.len() == 0,
        s.timeslice == TIMESLICE_NS,
        s.next_pid == 1,
        s.next_ustack_addr == USER_STACK_TOP,
        s.kernel_map == kernel_map,
        s.active_space == kernel_map.top_level,
{
    let mut processes: Vec<Process> = Vec::new();
    processes.push(Process::new("kernel", 0, kernel_map));
    let idle = Thread {
        name: "idle",
        tid: IDLE_TID,
        args: Vec::new(),
        entry: idle_entry,
        kstack: idle_kstack,
        ustack: 0,
        ustack_phys: 0,
        regs: StackFrame {
            r15: 0,
            r14: 0,
            r13: 0,
            r12: 0,
            r11: 0,
            r10: 0,
            r9: 0,
            r8: 0,
            rbp: 0,
            rdi: 0,
            rsi: 0,
            rdx: 0,
            rcx: 0,
            rbx: 0,
            rax: 0,
            vector: 0,
            ec: 0,
            rip: idle_entry,
            cs: KERNEL_CS,
            rflags: INITIAL_RFLAGS,
            rsp: idle_kstack + KERNEL_STACK_SIZE as u64,
            ss: KERNEL_SS,
        },
        parent: 0,
        status: ThreadStatus::Ready,
        runtime: 0,
        schedule_time: 0,
    };
    Scheduler {
        processes,
        zombies: Vec::new(),
        idle,
        current: Current::Nothing,
        queue: Vec::new(),
        secondary_queue: VecDeque::new(),
        timeslice: TIMESLICE_NS,
        next_pid: 1,
        next_ustack_addr: USER_STACK_TOP,
        kernel_map,
        active_space: kernel_map.top_level,
    }
}

/// Creates a process named `name`: the next process id, a fresh
/// address space whose upper half is that of the kernel, and no thread
/// yet. `None`, with nothing changed, where the ids or the frames for
/// page tables have run out.
pub fn spawn_process(scheduler: &mut Scheduler, mem: &mut PhysMemory, name: &'static str) -> (r: Option<u64>)
    requires
        old(scheduler).wf(),
        old(mem).wf(),
    ensures
        final(scheduler).wf(),
        final(mem).wf(),
        final(mem).grows_from(old(mem)),
        final(scheduler).same_queues(&Scheduler { next_pid: final(scheduler).next_pid, ..*old(scheduler) }),
        r is Some <==> old(scheduler).next_pid < u64::MAX && old(mem).can_alloc(),
        r is None ==> final(scheduler).processes == old(scheduler).processes && final(scheduler).next_pid
            == old(scheduler).next_pid && *final(mem) == *old(mem),
        r is Some ==> {
            let p = final(scheduler).processes@[old(scheduler).processes@.len() as int];
            &&& r->0 == old(scheduler).next_pid
            &&& final(scheduler).next_pid == r->0 + 1
            &&& final(scheduler).processes@.len() == old(scheduler).processes@.len() + 1
            &&& forall|i: int|
                0 <= i < old(scheduler).processes@.len() ==> #[trigger] final(scheduler).processes@[i]
                    == old(scheduler).processes@[i]
            &&& p.pid == r->0
            &&& p.name == name
            &&& p.next_tid == 1
            &&& p.children@.len() == 0
            &&& p.pagemap.used_pages == 0
            &&& final(scheduler).proc_index(r->0) == Some(old(scheduler).processes@.len() as int)
            &&& old(mem).root_frame(p.pagemap.top_level) is None
            &&& final(mem).root_frame(p.pagemap.top_level) is Some
            &&& forall|v: u64|
                table_index(v, 4) < 256 ==> #[trigger] final(mem).translation(
                    p.pagemap.top_level,
                    v,
                ) is None
            &&& old(mem).root_frame(old(scheduler).kernel_map.top_level) is Some ==> forall|v: u64|
                table_index(v, 4) >= 256 ==> #[trigger] final(mem).translation(
                    p.pagemap.top_level,
                    v,
                ) == old(mem).translation(old(scheduler).kernel_map.top_level, v)
            &&& forall|rt: u64, v: u64|
                old(mem).root_frame(rt) is Some ==> #[trigger] final(mem).translation(rt, v)
                    == old(mem).translation(rt, v)
            &&& forall|rt: u64|
                (#[trigger] old(mem).root_frame(rt)) is Some ==> final(mem).apart(
                    p.pagemap.top_level,
                    rt,
                ) && final(mem).apart(rt, p.pagemap.top_level)
        },
{
    if scheduler.next_pid == u64::MAX {
        return None;
    }
    let fresh = match Pagemap::new(mem) {
        Some(p) => p,
        None => { return None; },
    };
    let ghost mid = *mem;
    let pagemap = fresh.copy_kernel_map(mem, &scheduler.kernel_map);
    let pid = scheduler.next_pid;
    scheduler.next_pid = pid + 1;
    scheduler.processes.push(Process::new(name, pid, pagemap));
    proof {
        let n = old(scheduler).processes@.len() as int;
        assert(scheduler.is_proc(n, pid));
        assert forall|i: int| 0 <= i < scheduler.processes@.len() implies (
        #[trigger] scheduler.processes@[i]).wf() && scheduler.processes@[i].pid < scheduler.next_pid by {
            if i < n {
                assert(old(scheduler).processes@[i].wf());
            }
        }
        assert forall|i: int, j: int| 0 <= i < j < scheduler.processes@.len() implies (
        #[trigger] scheduler.processes@[i]).pid != (#[trigger] scheduler.processes@[j]).pid by {
            if j < n {
                assert(old(scheduler).processes@[i].pid != old(scheduler).processes@[j].pid);
            } else {
                assert(old(scheduler).processes@[i].pid < old(scheduler).next_pid);
            }
        }
        let j = choose|j: int| is_proc_in(scheduler.processes@, j, pid);
        if j < n {
            assert(old(scheduler).processes@[j].pid < old(scheduler).next_pid);
        }
        crate::mem::lemma_grows_trans(old(mem), &mid, mem);
        assert forall|rt: u64, v: u64| old(mem).root_frame(rt) is Some implies #[trigger]
            mem.translation(rt, v) == old(mem).translation(rt, v) by {
            assert(mid.translation(rt, v) == old(mem).translation(rt, v));
            assert(mid.root_frame(rt) == old(mem).root_frame(rt));
        }
        if old(mem).root_frame(old(scheduler).kernel_map.top_level) is Some {
            assert forall|v: u64| table_index(v, 4) >= 256 implies #[trigger] mem.translation(
                pagemap.top_level,
                v,
            ) == old(mem).translation(old(scheduler).kernel_map.top_level, v) by {
                assert(mid.translation(old(scheduler).kernel_map.top_level, v) == old(
                    mem,
                ).translation(old(scheduler).kernel_map.top_level, v));
            }
        }
        assert forall|v: u64| table_index(v, 4) < 256 implies #[trigger] mem.translation(
            pagemap.top_level,
            v,
        ) is None by {
            assert(mid.translation(pagemap.top_level, v) is None);
        }
         assert forall|rt: u64| (#[trigger] old(mem).root_frame(rt)) is Some implies mem.apart(
            pagemap.top_level,
            rt,
        ) && mem.apart(rt, pagemap.top_level) by {
            assert(mid.root_frame(rt) == old(mem).root_frame(rt));
            assert(mem.root_frame(rt) == mid.root_frame(rt));
            crate::mem::lemma_empty_apart(mem, pagemap.top_level, rt);
        }
   }
    Some(pid)
}

/// Ends the process with id `pid`: every thread of it is marked
/// terminated and handed to the next pass to be reaped, and the
/// process leaves the registry. False, with nothing changed, where
/// there is no such process.
pub fn kill_process(scheduler: &mut Scheduler, pid: u64) -> (found: bool)
    requires
        old(scheduler).wf(),
    ensures
        final(scheduler).wf(),
        found == old(scheduler).proc_index(pid) is Some,
        final(scheduler).idle == old(scheduler).idle,
        final(scheduler).current == old(scheduler).current,
        final(scheduler).queue == old(scheduler).queue,
        final(scheduler).secondary_queue == old(scheduler).secondary_queue,
        final(scheduler).timeslice == old(scheduler).timeslice,
        final(scheduler).next_pid == old(scheduler).next_pid,
        final(scheduler).next_ustack_addr == old(scheduler).next_ustack_addr,
        final(scheduler).kernel_map == old(scheduler).kernel_map,
        final(scheduler).active_space == old(scheduler).active_space,
        !found ==> final(scheduler).processes == old(scheduler).processes && final(scheduler).zombies == old(
            scheduler,
        ).zombies,
        found ==> {
            let pi = old(scheduler).proc_index(pid)->0;
            &&& final(scheduler).processes@ == old(scheduler).processes@.remove(pi)
            &&& final(scheduler).proc_index(pid) is None
            &&& final(scheduler).zombies@ == old(scheduler).zombies@ + old(
                scheduler,
            ).processes@[pi].children@.map_values(
                |t: Thread| t.with_status(ThreadStatus::Terminated),
            )
        },
{
    let pi = match scheduler.find_process(pid) {
        Some(i) => i,
        None => { return false; },
    };
    let mut proc = scheduler.processes.remove(pi);
    let ghost kids = proc.children@;
    let mut i: usize = 0;
    while i < proc.children.len()
        invariant
            i <= proc.children@.len(),
            proc.children@.len() == kids.len(),
            forall|j: int|
                0 <= j < i ==> #[trigger] proc.children@[j] == kids[j].with_status(
                    ThreadStatus::Terminated,
                ),
            forall|j: int| i <= j < kids.len() ==> #[trigger] proc.children@[j] == kids[j],
        decreases proc.children@.len() - i,
    {
        proc.children[i].status = ThreadStatus::Terminated;
        i = i + 1;
    }
    assert(proc.children@ =~= kids.map_values(
        |t: Thread| t.with_status(ThreadStatus::Terminated),
    ));
    scheduler.zombies.append(&mut proc.children);
    proof {
        let n = old(scheduler).processes@.len() as int;
        assert forall|i: int| 0 <= i < scheduler.processes@.len() implies (
        #[trigger] scheduler.processes@[i]).wf() && scheduler.processes@[i].pid < scheduler.next_pid by {
            if i < pi {
                assert(old(scheduler).processes@[i].wf());
            } else {
                assert(old(scheduler).processes@[i + 1].wf());
            }
        }
        assert forall|i: int, j: int| 0 <= i < j < scheduler.processes@.len() implies (
        #[trigger] scheduler.processes@[i]).pid != (#[trigger] scheduler.processes@[j]).pid by {
            let a = if i < pi {
                i
            } else {
                i + 1
            };
            let b = if j < pi {
                j
            } else {
                j + 1
            };
            assert(old(scheduler).processes@[a].pid != old(scheduler).processes@[b].pid);
        }
        if exists|j: int| is_proc_in(scheduler.processes@, j, pid) {
            let j = choose|j: int| is_proc_in(scheduler.processes@, j, pid);
            let b = if j < pi {
                j
            } else {
                j + 1
            };
            if b < pi {
                assert(old(scheduler).processes@[b].pid != old(scheduler).processes@[pi as int].pid);
            } else {
                assert(old(scheduler).processes@[pi as int].pid != old(scheduler).processes@[b].pid);
            }
        }
    }
    true
}

/// `spawn_with_args` without arguments.
pub fn spawn_thread(
    scheduler: &mut Scheduler,
    mem: &mut PhysMemory,
    pid: u64,
    func: u64,
    name: &'static str,
    user: bool,
    kstack: u64,
    ustack_phys: u64,
) -> (r: Option<(u64, Vec<u8>)>)
    requires
        old(scheduler).wf(),
        old(mem).wf(),
        kstack + KERNEL_STACK_SIZE <= u64::MAX,
    ensures
        final(scheduler).wf(),
        final(mem).wf(),
        final(mem).grows_from(old(mem)),
        r is None ==> final(scheduler).same_children(old(scheduler)),
        !user ==> *final(mem) == *old(mem) && (r is Some <==> old(scheduler).proc_index(pid) is Some
            && old(scheduler).processes@[old(scheduler).proc_index(pid)->0].next_tid < u64::MAX),
        user && old(scheduler).proc_index(pid) is Some && old(scheduler).processes@[old(
            scheduler,
        ).proc_index(pid)->0].next_tid < u64::MAX && old(scheduler).next_ustack_addr
            >= USER_STACK_SIZE && old(mem).range_ready(
            old(scheduler).processes@[old(scheduler).proc_index(pid)->0].pagemap.top_level,
            (old(scheduler).next_ustack_addr - USER_STACK_SIZE) as u64,
            ustack_phys,
            USER_STACK_SIZE as u64,
        ) ==> r is Some,
        old(scheduler).proc_index(pid) is Some && old(scheduler).next_ustack_addr
            <= 0x8000_0000_0000 ==> final(mem).others_kept(
            old(mem),
            old(scheduler).processes@[old(scheduler).proc_index(pid)->0].pagemap.top_level,
        ),
        final(scheduler).spawned(
            old(scheduler),
            final(mem),
            pid,
            func,
            name,
            user,
            Seq::<String>::empty(),
            kstack,
            ustack_phys,
            r,
        ),
{
    proof {
        assert(args_fit(Seq::<String>::empty()));
    }
    spawn_with_args(scheduler, mem, pid, func, name, user, Vec::new(), kstack, ustack_phys)
}

/// Creates a thread in the process with id `pid` and queues it. The
/// thread gets the next thread id of the process, which is above the
/// id of every thread created there before; a user thread gets the
/// next user stack, one stack below the last. The result is the
/// thread's id and, for a user thread, the image to copy to the bottom
/// of its stack. `None`, with no thread created, where there is no
/// such process, the ids or the stack addresses have run out, or the
/// stack cannot be mapped.
pub fn spawn_with_args(
    scheduler: &mut Scheduler,
    mem: &mut PhysMemory,
    pid: u64,
    func: u64,
    name: &'static str,
    user: bool,
    args: Vec<String>,
    kstack: u64,
    ustack_phys: u64,
) -> (r: Option<(u64, Vec<u8>)>)
    requires
        old(scheduler).wf(),
        old(mem).wf(),
        kstack + KERNEL_STACK_SIZE <= u64::MAX,
        args_fit(args@),
    ensures
        final(scheduler).wf(),
        final(mem).wf(),
        final(mem).grows_from(old(mem)),
        r is None ==> final(scheduler).same_children(old(scheduler)),
        !user ==> *final(mem) == *old(mem) && (r is Some <==> old(scheduler).proc_index(pid) is Some
            && old(scheduler).processes@[old(scheduler).proc_index(pid)->0].next_tid < u64::MAX),
        user && old(scheduler).proc_index(pid) is Some && old(scheduler).processes@[old(
            scheduler,
        ).proc_index(pid)->0].next_tid < u64::MAX && old(scheduler).next_ustack_addr
            >= USER_STACK_SIZE && old(mem).range_ready(
            old(scheduler).processes@[old(scheduler).proc_index(pid)->0].pagemap.top_level,
            (old(scheduler).next_ustack_addr - USER_STACK_SIZE) as u64,
            ustack_phys,
            USER_STACK_SIZE as u64,
        ) ==> r is Some,
        old(scheduler).proc_index(pid) is Some && old(scheduler).next_ustack_addr
            <= 0x8000_0000_0000 ==> final(mem).others_kept(
            old(mem),
            old(scheduler).processes@[old(scheduler).proc_index(pid)->0].pagemap.top_level,
        ),
        final(scheduler).spawned(
            old(scheduler),
            final(mem),
            pid,
            func,
            name,
            user,
            args@,
            kstack,
            ustack_phys,
            r,
        ),
{
    let pi = match scheduler.find_process(pid) {
        Some(i) => i,
        None => { return None; },
    };
    if scheduler.processes[pi].next_tid == u64::MAX {
        return None;
    }
    let mut ustack: u64 = 0;
    if user {
        if scheduler.next_ustack_addr < USER_STACK_SIZE as u64 {
            return None;
        }
        ustack = scheduler.next_ustack_addr - USER_STACK_SIZE as u64;
    }
    let ghost before = scheduler.processes@[pi as int];
    let ghost wanted = args@;
    let made = Thread::new(
        &mut scheduler.processes[pi],
        mem,
        func,
        name,
        user,
        args,
        kstack,
        ustack,
        ustack_phys,
    );
    let (thread, image) = match made {
        Some(m) => m,
        None => {
            proof {
                scheduler.lemma_process_changed(old(scheduler), pi as int);
            }
            return None;
        },
    };
    let tid = thread.tid;
    let ghost t = thread;
    scheduler.processes[pi].children.push(thread);
    scheduler.queue.push(ThreadRef { pid, tid });
    if user {
        scheduler.next_ustack_addr = ustack;
    }
    proof {
        let after = scheduler.processes@[pi as int];
        assert(after.children@ == before.children@.push(t));
        assert(after.children@.last() == t);
        assert(after.wf()) by {
            assert forall|i: int| 0 <= i < after.children@.len() implies (
            #[trigger] after.children@[i]).tid < after.next_tid && after.children@[i].parent
                == after.pid by {
                if i < before.children@.len() {
                    assert(before.children@[i].tid < before.next_tid);
                }
            }
            assert forall|i: int, j: int| 0 <= i < j < after.children@.len() implies (
            #[trigger] after.children@[i]).tid != (#[trigger] after.children@[j]).tid by {
                if j < before.children@.len() {
                    assert(before.children@[i].tid != before.children@[j].tid);
                } else {
                    assert(before.children@[i].tid < before.next_tid);
                }
            }
        }
        scheduler.lemma_process_changed(old(scheduler), pi as int);
        assert(after.is_child(before.children@.len() as int, tid));
        scheduler.lemma_lookup(ThreadRef { pid, tid }, pi as int, before.children@.len() as int);
    }
    Some((tid, image))
}

/// Takes the next thread out of the ready structure: the first of
/// those that may run at `now` and have run least.
pub fn next_thread(scheduler: &mut Scheduler, now: u64) -> (r: Option<ThreadRef>)
    requires
        old(scheduler).wf(),
    ensures
        final(scheduler).wf(),
        final(scheduler).processes == old(scheduler).processes,
        final(scheduler).zombies == old(scheduler).zombies,
        final(scheduler).idle == old(scheduler).idle,
        final(scheduler).current == old(scheduler).current,
        final(scheduler).secondary_queue == old(scheduler).secondary_queue,
        final(scheduler).timeslice == old(scheduler).timeslice,
        final(scheduler).next_pid == old(scheduler).next_pid,
        final(scheduler).next_ustack_addr == old(scheduler).next_ustack_addr,
        final(scheduler).kernel_map == old(scheduler).kernel_map,
        final(scheduler).active_space == old(scheduler).active_space,
        r is None <==> forall|k: int| !#[trigger] is_candidate(
            old(scheduler).processes@,
            old(scheduler).queue@,
            k,
            now,
        ),
        r is None ==> final(scheduler).queue == old(scheduler).queue,
        r is Some ==> exists|b: int|
            #[trigger] is_pick(old(scheduler).processes@, old(scheduler).queue@, b, now) && r->0 == old(
                scheduler,
            ).queue@[b] && final(scheduler).queue@ == old(scheduler).queue@.remove(b),
{
    match scheduler.pick(now) {
        None => None,
        Some(b) => {
            let h = scheduler.queue.remove(b);
            Some(h)
        },
    }
}

/// One scheduling pass, at the time `now`, on the trap whose frame is
/// `regs`.
///
/// Every terminated thread and every zombie is reaped: it leaves the
/// registry, its user stack is unmapped, and what is left of it is in
/// the outcome. The thread that had the processor keeps `regs`, is
/// ready again if it was running, and has the time since it was given
/// the processor counted. The processor goes to the first entry of
/// the ready structure, among those that name a thread that is ready
/// or whose sleep has ended, whose thread has run least; to the idle
/// thread where there is no such entry. A blocked thread and one whose
/// sleep has not ended are never chosen. The thread that had the
/// processor goes to the end of the ready structure, blocked threads
/// go to the holding structure, and those that are no longer blocked
/// leave it. The caller puts the frame of the outcome in place of that
/// of the trap, makes the address space of the outcome the current
/// one, arms the timer, and gives back the memory of the threads that
/// were reaped.
pub fn schedule(scheduler: &mut Scheduler, mem: &mut PhysMemory, regs: &StackFrame, now: u64) -> (out:
    ScheduleOutcome)
    requires
        old(scheduler).wf(),
        old(mem).wf(),
    ensures
        final(scheduler).wf(),
        final(mem).wf(),
        final(mem).shrunk_from(old(mem)),
        final(scheduler).zombies@.len() == 0,
        final(scheduler).timeslice == old(scheduler).timeslice,
        final(scheduler).next_pid == old(scheduler).next_pid,
        final(scheduler).next_ustack_addr == old(scheduler).next_ustack_addr,
        final(scheduler).kernel_map == old(scheduler).kernel_map,
        final(scheduler).active_space == out.address_space,
        out.switch_space == (out.address_space != old(scheduler).active_space),
        out.quantum == old(scheduler).timeslice,
        out.vector == crate::ints::PREEMPTION,
        out.reaped@ == dead_in(old(scheduler).processes@, old(scheduler).processes@.len() as int)
            + zombie_records(old(scheduler).zombies@, old(scheduler).zombies@.len() as int),
        forall|i: int, c: int| #[trigger]
            dead_child(old(scheduler).processes@, i, c) ==> stack_gone(
                old(mem),
                final(mem),
                old(scheduler).processes@[i].pagemap.top_level,
                old(scheduler).processes@[i].children@[c],
            ),
        forall|r: ThreadRef|
            old(scheduler).thread(r) is Some && is_dead(old(scheduler).thread(r)->0) ==> (
            #[trigger] final(scheduler).thread(r)) is None,
        out.next is Thread ==> {
            let t = old(scheduler).thread(out.next->Thread_0);
            &&& t is Some
            &&& t->0.status != ThreadStatus::Blocked
            &&& t->0.status != ThreadStatus::Terminated
            &&& t->0.status is Sleeping ==> t->0.status->Sleeping_0 <= now
        },
        final(scheduler).pass_outcome(
            old(scheduler),
            *regs,
            now,
            out.next,
            out.frame,
            out.address_space,
        ),
{
    let reaped = scheduler.reap(mem);
    let ghost s1 = *scheduler;
    let before = match scheduler.current {
        Current::Thread(r) => Some(r),
        _ => None,
    };
    scheduler.account(regs, now);
    let ghost s2 = *scheduler;
    let pick = scheduler.pick(now);
    let chosen = scheduler.dispatch(pick, now);
    let ghost s3 = *scheduler;
    let prev = match (before, chosen.0) {
        (Some(p), Current::Thread(r)) => if p.pid == r.pid && p.tid == r.tid {
            None
        } else {
            Some(p)
        },
        (p, _) => p,
    };
    scheduler.requeue(prev);
    proof {
        let choice = match pick {
            Some(b) => Some(b as int),
            None => None,
        };
        lemma_pass(old(scheduler), &s1, &s2, &s3, scheduler, *regs, now, choice, chosen, prev);
    }
    ScheduleOutcome {
        next: chosen.0,
        frame: chosen.1,
        address_space: chosen.2,
        switch_space: chosen.3,
        quantum: scheduler.timeslice,
        vector: crate::ints::PREEMPTION,
        reaped,
    }
}

/// The process with id `pid`.
pub fn get_proc_by_pid(scheduler: &Scheduler, pid: u64) -> (r: Option<&Process>)
    requires
        scheduler.wf(),
    ensures
        r is Some == scheduler.proc_index(pid) is Some,
        r is Some ==> *r->0 == scheduler.processes@[scheduler.proc_index(pid)->0] && r->0.pid == pid,
{
    match scheduler.find_process(pid) {
        Some(i) => Some(&scheduler.processes[i]),
        None => None,
    }
}

/// The first process in the registry with the name `name`.
pub fn get_proc_by_name<'a>(scheduler: &'a Scheduler, name: &str) -> (r: Option<&'a Process>)
    ensures
        r is Some ==> exists|i: int|
            0 <= i < scheduler.processes@.len() && *r->0 == #[trigger] scheduler.processes@[i]
                && scheduler.processes@[i].name.spec_bytes() == name.spec_bytes() && forall|j: int|
                0 <= j < i ==> (#[trigger] scheduler.processes@[j]).name.spec_bytes()
                    != name.spec_bytes(),
        r is None ==> forall|i: int|
            0 <= i < scheduler.processes@.len() ==> (#[trigger] scheduler.processes@[i]).name.spec_bytes()
                != name.spec_bytes(),
{
    let mut i: usize = 0;
    while i < scheduler.processes.len()
        invariant
            i <= scheduler.processes@.len(),
            forall|j: int|
                0 <= j < i ==> (#[trigger] scheduler.processes@[j]).name.spec_bytes()
                    != name.spec_bytes(),
        decreases scheduler.processes@.len() - i,
    {
        if same_text(scheduler.processes[i].name, name) {
            return Some(&scheduler.processes[i]);
        }
        i = i + 1;
    }
    None
}

/// The idle thread.
pub fn idle0(scheduler: &Scheduler) -> (t: &Thread)
    ensures
        *t == scheduler.idle,
{
    &scheduler.idle
}

/// The thread that has the processor: a thread of the registry, or the
/// idle thread.
pub fn current_thread(scheduler: &Scheduler) -> (t: Option<&Thread>)
    requires
        scheduler.wf(),
    ensures
        t is Some == (scheduler.running() is Some || scheduler.current == Current::Idle),
        scheduler.current == Current::Idle ==> t is Some && *t->0 == scheduler.idle,
        scheduler.running() is Some ==> t is Some && *t->0 == scheduler.thread(scheduler.running()->0)->0,
{
    match scheduler.current {
        Current::Nothing => None,
        Current::Idle => Some(&scheduler.idle),
        Current::Thread(r) => scheduler.get_thread(r),
    }
}

/// The process of the thread that has the processor.
pub fn current_process(scheduler: &Scheduler) -> (p: Option<&Process>)
    requires
        scheduler.wf(),
    ensures
        p is Some == scheduler.running() is Some,
        p is Some ==> *p->0 == scheduler.processes@[scheduler.proc_index(scheduler.running()->0.pid)->0],
{
    match scheduler.current {
        Current::Thread(r) => match scheduler.find_thread(r) {
            Some((pi, _)) => Some(&scheduler.processes[pi]),
            None => None,
        },
        _ => None,
    }
}

/// Marks the running thread asleep until `ns` nanoseconds after `now`,
/// or until the end of time where that is beyond it. Nothing else of that
/// thread changes, and no other thread does. The caller then yields.
pub fn sleep(scheduler: &mut Scheduler, ns: u64, now: u64)
    requires
        old(scheduler).wf(),
    ensures
        final(scheduler).wf(),
        final(scheduler).same_queues(old(scheduler)),
        old(scheduler).running() is None ==> final(scheduler).processes == old(scheduler).processes,
        old(scheduler).running() is Some ==> final(scheduler).thread(old(scheduler).running()->0) == Some(
            old(scheduler).thread(old(scheduler).running()->0)->0.with_status(
                ThreadStatus::Sleeping(wake_time(now, ns)),
            ),
        ),
        old(scheduler).running() is Some ==> {
            let r = old(scheduler).running()->0;
            let pi = old(scheduler).proc_index(r.pid)->0;
            let ti = old(scheduler).processes@[pi].child_index(r.tid)->0;
            let t = old(scheduler).thread(r)->0.with_status(ThreadStatus::Sleeping(wake_time(now, ns)));
            &&& final(scheduler).replaced(old(scheduler), pi, ti, t)
            &&& final(scheduler).found_replaced(old(scheduler), r, t)
        },
{
    let when = if ns > u64::MAX - now {
        u64::MAX
    } else {
        now + ns
    };
    scheduler.set_current_status(ThreadStatus::Sleeping(when));
}

/// `sleep` for `ms` milliseconds.
pub fn sleep_ms(scheduler: &mut Scheduler, ms: u64, now: u64)
    requires
        old(scheduler).wf(),
    ensures
        final(scheduler).wf(),
        final(scheduler).same_queues(old(scheduler)),
        old(scheduler).running() is None ==> final(scheduler).processes == old(scheduler).processes,
        old(scheduler).running() is Some ==> final(scheduler).thread(old(scheduler).running()->0) == Some(
            old(scheduler).thread(old(scheduler).running()->0)->0.with_status(
                ThreadStatus::Sleeping(wake_time(now, ms_to_ns(ms))),
            ),
        ),
        old(scheduler).running() is Some ==> {
            let r = old(scheduler).running()->0;
            let pi = old(scheduler).proc_index(r.pid)->0;
            let ti = old(scheduler).processes@[pi].child_index(r.tid)->0;
            let t = old(scheduler).thread(r)->0.with_status(ThreadStatus::Sleeping(wake_time(now, ms_to_ns(ms))));
            &&& final(scheduler).replaced(old(scheduler), pi, ti, t)
            &&& final(scheduler).found_replaced(old(scheduler), r, t)
        },
{
    let ns = if ms > u64::MAX / 1_000_000 {
        u64::MAX
    } else {
        ms * 1_000_000
    };
    sleep(scheduler, ns, now);
}

/// The vector that a thread raises to give the processor up: that of the
/// preemption timer, so that a yield is a pass like any other. The status
/// of the thread stays as it is.
pub fn yld() -> (vector: u8)
    ensures
        vector == crate::ints::PREEMPTION,
{
    crate::ints::PREEMPTION
}

/// Marks the running thread blocked; nothing else of it changes, and no
/// other thread does. Returns whether there is one: the caller then
/// yields.
pub fn block(scheduler: &mut Scheduler) -> (found: bool)
    requires
        old(scheduler).wf(),
    ensures
        final(scheduler).wf(),
        final(scheduler).same_queues(old(scheduler)),
        found == old(scheduler).running() is Some,
        !found ==> final(scheduler).processes == old(scheduler).processes,
        found ==> final(scheduler).thread(old(scheduler).running()->0) == Some(
            old(scheduler).thread(old(scheduler).running()->0)->0.with_status(ThreadStatus::Blocked),
        ),
        old(scheduler).running() is Some ==> {
            let r = old(scheduler).running()->0;
            let pi = old(scheduler).proc_index(r.pid)->0;
            let ti = old(scheduler).processes@[pi].child_index(r.tid)->0;
            let t = old(scheduler).thread(r)->0.with_status(ThreadStatus::Blocked);
            &&& final(scheduler).replaced(old(scheduler), pi, ti, t)
            &&& final(scheduler).found_replaced(old(scheduler), r, t)
        },
{
    scheduler.set_current_status(ThreadStatus::Blocked)
}

/// Marks the running thread terminated; nothing else of it changes, and
/// no other thread does. Returns whether there is one: the caller then
/// yields, and the thread never runs again.
pub fn terminate(scheduler: &mut Scheduler) -> (found: bool)
    requires
        old(scheduler).wf(),
    ensures
        final(scheduler).wf(),
        final(scheduler).same_queues(old(scheduler)),
        found == old(scheduler).running() is Some,
        !found ==> final(scheduler).processes == old(scheduler).processes,
        found ==> final(scheduler).thread(old(scheduler).running()->0) == Some(
            old(scheduler).thread(old(scheduler).running()->0)->0.with_status(ThreadStatus::Terminated),
        ),
        old(scheduler).running() is Some ==> {
            let r = old(scheduler).running()->0;
            let pi = old(scheduler).proc_index(r.pid)->0;
            let ti = old(scheduler).processes@[pi].child_index(r.tid)->0;
            let t = old(scheduler).thread(r)->0.with_status(ThreadStatus::Terminated);
            &&& final(scheduler).replaced(old(scheduler), pi, ti, t)
            &&& final(scheduler).found_replaced(old(scheduler), r, t)
        },
{
    scheduler.set_current_status(ThreadStatus::Terminated)
}

/// Makes a blocked thread ready: it leaves the holding structure and goes
/// to the end of the ready structure. Nothing happens where `thread`
/// names no thread or one that is not blocked.
pub fn wake(scheduler: &mut Scheduler, thread: ThreadRef)
    requires
        old(scheduler).wf(),
    ensures
        final(scheduler).wf(),
        final(scheduler).zombies == old(scheduler).zombies,
        final(scheduler).idle == old(scheduler).idle,
        final(scheduler).current == old(scheduler).current,
        final(scheduler).timeslice == old(scheduler).timeslice,
        final(scheduler).next_pid == old(scheduler).next_pid,
        final(scheduler).next_ustack_addr == old(scheduler).next_ustack_addr,
        final(scheduler).kernel_map == old(scheduler).kernel_map,
        final(scheduler).active_space == old(scheduler).active_space,
        old(scheduler).thread(thread) is Some && old(scheduler).thread(thread)->0.status
            == ThreadStatus::Blocked ==> {
            &&& final(scheduler).thread(thread) == Some(
                old(scheduler).thread(thread)->0.with_status(ThreadStatus::Ready),
            )
            &&& final(scheduler).replaced(
                old(scheduler),
                old(scheduler).proc_index(thread.pid)->0,
                old(scheduler).processes@[old(scheduler).proc_index(thread.pid)->0].child_index(
                    thread.tid,
                )->0,
                old(scheduler).thread(thread)->0.with_status(ThreadStatus::Ready),
            )
            &&& final(scheduler).queue@ == old(scheduler).queue@.push(thread)
            &&& final(scheduler).secondary_queue@ == without(
                old(scheduler).secondary_queue@,
                thread,
                old(scheduler).secondary_queue@.len() as int,
            )
        },
        !(old(scheduler).thread(thread) is Some && old(scheduler).thread(thread)->0.status
            == ThreadStatus::Blocked) ==> final(scheduler).processes == old(scheduler).processes
            && final(scheduler).queue == old(scheduler).queue && final(scheduler).secondary_queue
            == old(scheduler).secondary_queue,
{
    match scheduler.find_thread(thread) {
        None => {},
        Some((pi, ti)) => {
            let blocked = match scheduler.processes[pi].children[ti].status {
                ThreadStatus::Blocked => true,
                _ => false,
            };
            if blocked {
                scheduler.put_status(pi, ti, ThreadStatus::Ready);
                scheduler.queue.push(thread);
                let mut rest: VecDeque<ThreadRef> = VecDeque::new();
                let n = scheduler.secondary_queue.len();
                let mut i: usize = 0;
                while i < n
                    invariant
                        i <= n,
                        n == scheduler.secondary_queue@.len(),
                        rest@ == without(scheduler.secondary_queue@, thread, i as int),
                    decreases n - i,
                {
                    let h = scheduler.secondary_queue[i];
                    if !(h.pid == thread.pid && h.tid == thread.tid) {
                        rest.push_back(h);
                    }
                    i = i + 1;
                }
                scheduler.secondary_queue = rest;
                proof {
                    scheduler.lemma_lookup(thread, pi as int, ti as int);
                }
            }
        },
    }
}

/// Puts `thread` at the end of the ready structure.
pub fn enqueue(scheduler: &mut Scheduler, thread: ThreadRef)
    ensures
        final(scheduler).queue@ == old(scheduler).queue@.push(thread),
        final(scheduler).processes == old(scheduler).processes,
        final(scheduler).zombies == old(scheduler).zombies,
        final(scheduler).idle == old(scheduler).idle,
        final(scheduler).current == old(scheduler).current,
        final(scheduler).secondary_queue == old(scheduler).secondary_queue,
        final(scheduler).timeslice == old(scheduler).timeslice,
        final(scheduler).next_pid == old(scheduler).next_pid,
        final(scheduler).next_ustack_addr == old(scheduler).next_ustack_addr,
        final(scheduler).kernel_map == old(scheduler).kernel_map,
        final(scheduler).active_space == old(scheduler).active_space,
{
    scheduler.queue.push(thread);
}

/// Hands out the next process id. Ids go up by one from 0.
pub fn next_pid(scheduler: &mut Scheduler) -> (pid: u64)
    requires
        old(scheduler).wf(),
        old(scheduler).next_pid < u64::MAX,
    ensures
        final(scheduler).wf(),
        pid == old(scheduler).next_pid,
        final(scheduler).next_pid == pid + 1,
        final(scheduler).processes == old(scheduler).processes,
        final(scheduler).zombies == old(scheduler).zombies,
        final(scheduler).idle == old(scheduler).idle,
        final(scheduler).current == old(scheduler).current,
        final(scheduler).queue == old(scheduler).queue,
        final(scheduler).secondary_queue == old(scheduler).secondary_queue,
        final(scheduler).timeslice == old(scheduler).timeslice,
        final(scheduler).next_ustack_addr == old(scheduler).next_ustack_addr,
        final(scheduler).kernel_map == old(scheduler).kernel_map,
        final(scheduler).active_space == old(scheduler).active_space,
{
    let pid = scheduler.next_pid;
    scheduler.next_pid = pid + 1;
    pid
}

/// Hands out the address of the next user stack: one stack below the
/// one handed out last.
pub fn next_stack_address(scheduler: &mut Scheduler) -> (addr: u64)
    requires
        old(scheduler).next_ustack_addr >= crate::mem::USER_STACK_SIZE,
    ensures
        addr == old(scheduler).next_ustack_addr - crate::mem::USER_STACK_SIZE,
        final(scheduler).next_ustack_addr == addr,
        final(scheduler).processes == old(scheduler).processes,
        final(scheduler).zombies == old(scheduler).zombies,
        final(scheduler).idle == old(scheduler).idle,
        final(scheduler).current == old(scheduler).current,
        final(scheduler).queue == old(scheduler).queue,
        final(scheduler).secondary_queue == old(scheduler).secondary_queue,
        final(scheduler).timeslice == old(scheduler).timeslice,
        final(scheduler).next_pid == old(scheduler).next_pid,
        final(scheduler).kernel_map == old(scheduler).kernel_map,
        final(scheduler).active_space == old(scheduler).active_space,
{
    scheduler.next_ustack_addr = scheduler.next_ustack_addr - crate::mem::USER_STACK_SIZE as u64;
    scheduler.next_ustack_addr
}


/// After reaping and accounting, the registry finds under every name the
/// thread as a pass sees it.
pub proof fn lemma_seen(
    old: &Scheduler,
    s1: &Scheduler,
    s2: &Scheduler,
    regs: StackFrame,
    now: u64,
    r: ThreadRef,
)
    requires
        s1.current == old.current,
        s1.thread(r) == match old.thread(r) {
            Some(t) => if is_dead(t) {
                None
            } else {
                Some(t)
            },
            None => None,
        },
        s1.running() is None ==> s2.processes == s1.processes,
        s1.running() is Some ==> s2.found_replaced(
            s1,
            s1.running()->0,
            accounted(s1.thread(s1.running()->0)->0, regs, now),
        ),
    ensures
        s2.thread(r) == seen(old.processes@, old.current, r, regs, now),
{
    if s1.running() is Some {
        let p = s1.running()->0;
        assert(s2.thread(r) == if r == p {
            Some(accounted(s1.thread(p)->0, regs, now))
        } else {
            s1.thread(r)
        });
    }
}

/// What the five steps of a pass add up to.
pub proof fn lemma_pass(
    old: &Scheduler,
    s1: &Scheduler,
    s2: &Scheduler,
    s3: &Scheduler,
    s4: &Scheduler,
    regs: StackFrame,
    now: u64,
    pick: Option<int>,
    chosen: (Current, StackFrame, u64, bool),
    prev: Option<ThreadRef>,
)
    requires
        old.wf(),
        s1.wf(),
        s2.wf(),
        s1.reaped_from(old),
        forall|r: ThreadRef| #[trigger]
            s1.thread(r) == match old.thread(r) {
                Some(t) => if is_dead(t) {
                    None
                } else {
                    Some(t)
                },
                None => None,
            },
        s2.current == s1.current,
        s2.queue == s1.queue,
        s2.secondary_queue == s1.secondary_queue,
        s2.kernel_map == s1.kernel_map,
        s2.idle == if s1.current == Current::Idle {
            accounted(s1.idle, regs, now)
        } else {
            s1.idle
        },
        s1.running() is None ==> s2.processes == s1.processes,
        s1.running() is Some ==> {
            let r = s1.running()->0;
            let pi = s1.proc_index(r.pid)->0;
            let ti = s1.processes@[pi].child_index(r.tid)->0;
            &&& s2.replaced(s1, pi, ti, accounted(s1.thread(r)->0, regs, now))
            &&& s2.found_replaced(s1, r, accounted(s1.thread(r)->0, regs, now))
        },
        pick is None <==> forall|k: int| !#[trigger] is_candidate(s2.processes@, s2.queue@, k, now),
        pick is Some ==> is_pick(s2.processes@, s2.queue@, pick->0, now),
        s3.current == chosen.0,
        s3.secondary_queue == s2.secondary_queue,
        pick is None ==> {
            &&& chosen.0 == Current::Idle
            &&& chosen.1 == s2.idle.regs
            &&& chosen.2 == s2.kernel_map.top_level
            &&& s3.idle == dispatched(s2.idle, now)
            &&& s3.processes == s2.processes
            &&& s3.queue == s2.queue
        },
        pick is Some ==> {
            let r = s2.queue@[pick->0];
            let t = s2.thread(r)->0;
            let pi = s2.proc_index(r.pid)->0;
            let ti = s2.processes@[pi].child_index(r.tid)->0;
            &&& chosen.0 == Current::Thread(r)
            &&& chosen.1 == t.regs
            &&& chosen.2 == s2.processes@[pi].pagemap.top_level
            &&& s3.idle == s2.idle
            &&& s3.queue@ == s2.queue@.remove(pick->0)
            &&& s3.replaced(s2, pi, ti, dispatched(t, now))
            &&& s3.found_replaced(s2, r, dispatched(t, now))
        },
        prev == if name_of(old.current) is Some && chosen.0 == Current::Thread(
            name_of(old.current)->0,
        ) {
            None
        } else {
            name_of(old.current)
        },
        s4.processes == s3.processes,
        s4.idle == s3.idle,
        s4.current == s3.current,
        s4.queue@ == requeued(s3.processes@, s3.queue@, s3.secondary_queue@, prev),
        s4.secondary_queue@ == reheld(s3.processes@, s3.queue@, s3.secondary_queue@, prev),
    ensures
        s4.pass_outcome(old, regs, now, chosen.0, chosen.1, chosen.2),
        forall|r: ThreadRef|
            old.thread(r) is Some && is_dead(old.thread(r)->0) ==> (#[trigger] s4.thread(r)) is None,
        chosen.0 is Thread ==> {
            let t = old.thread(chosen.0->Thread_0);
            &&& t is Some
            &&& t->0.status != ThreadStatus::Blocked
            &&& t->0.status != ThreadStatus::Terminated
            &&& t->0.status is Sleeping ==> t->0.status->Sleeping_0 <= now
        },
{
    reveal(Scheduler::pass_outcome);
    let next = chosen.0;
    assert forall|r: ThreadRef| #[trigger]
        s2.thread(r) == seen(old.processes@, old.current, r, regs, now) by {
        lemma_seen(old, s1, s2, regs, now, r);
    }
    assert forall|k: int|
        is_candidate(s2.processes@, s2.queue@, k, now) == #[trigger] may_pick(
            old.processes@,
            old.current,
            old.queue@,
            k,
            regs,
            now,
        ) by {
        if 0 <= k < s2.queue@.len() {
            assert(s2.thread(s2.queue@[k]) == seen(
                old.processes@,
                old.current,
                s2.queue@[k],
                regs,
                now,
            ));
        }
    }
    assert forall|r: ThreadRef| #[trigger]
        s4.thread(r) == match seen(old.processes@, old.current, r, regs, now) {
            Some(t) => Some(
                if next == Current::Thread(r) {
                    dispatched(t, now)
                } else {
                    t
                },
            ),
            None => None,
        } by {
        assert(s2.thread(r) == seen(old.processes@, old.current, r, regs, now));
        if pick is Some {
            let sel = s2.queue@[pick->0];
            assert(is_candidate(s2.processes@, s2.queue@, pick->0, now));
            assert(s3.thread(r) == if r == sel {
                Some(dispatched(s2.thread(sel)->0, now))
            } else {
                s2.thread(r)
            });
        }
    }
    assert(s4.settled_from(old)) by {
        lemma_settled_step(s1, s2);
        s2.lemma_settled(s1, old);
        lemma_settled_step(s2, s3);
        s3.lemma_settled(s2, old);
    }
    if pick is Some {
        let b = pick->0;
        let sel = s2.queue@[b];
        assert(is_candidate(s2.processes@, s2.queue@, b, now));
        assert(s2.thread(sel) == seen(old.processes@, old.current, sel, regs, now));
        assert(may_pick(old.processes@, old.current, old.queue@, b, regs, now));
        assert(is_choice(old.processes@, old.current, old.queue@, b, regs, now)) by {
            assert forall|k: int| #[trigger]
                may_pick(old.processes@, old.current, old.queue@, k, regs, now) implies {
                let mine = seen(old.processes@, old.current, old.queue@[b], regs, now)->0.runtime;
                let other = seen(old.processes@, old.current, old.queue@[k], regs, now)->0.runtime;
                mine <= other && (k < b ==> mine < other)
            } by {
                assert(is_candidate(s2.processes@, s2.queue@, k, now));
                assert(s2.thread(s2.queue@[k]) == seen(
                    old.processes@,
                    old.current,
                    s2.queue@[k],
                    regs,
                    now,
                ));
            }
        }
        lemma_same_pids(old.processes@, s1.processes@, sel.pid);
        lemma_same_pids(s1.processes@, s2.processes@, sel.pid);
        assert(old.proc_index(sel.pid) == s2.proc_index(sel.pid));
        assert(s2.proc_index(sel.pid) is Some);
        let pi = s2.proc_index(sel.pid)->0;
        assert(s2.processes@[pi].pagemap.top_level == old.processes@[pi].pagemap.top_level) by {
            assert(s1.processes@[pi].pagemap.top_level == old.processes@[pi].pagemap.top_level);
        }
    }
}

/// Replacing one thread by a thread of the same name, or none, leaves
/// every process with the children that it had, under their names.
pub proof fn lemma_settled_step(a: &Scheduler, b: &Scheduler)
    requires
        a.wf(),
        b.processes == a.processes || exists|pi: int, ti: int, t: Thread|
            0 <= pi < a.processes@.len() && 0 <= ti < a.processes@[pi].children@.len() && ref_of(t)
                == ref_of(a.processes@[pi].children@[ti]) && #[trigger] b.replaced(a, pi, ti, t),
    ensures
        b.processes@.len() == a.processes@.len(),
        forall|i: int|
            0 <= i < a.processes@.len() ==> {
                let p = #[trigger] b.processes@[i];
                let q = a.processes@[i];
                &&& p.name == q.name
                &&& p.pid == q.pid
                &&& p.next_tid == q.next_tid
                &&& p.pagemap.top_level == q.pagemap.top_level
                &&& p.children@.len() == q.children@.len()
                &&& forall|c: int|
                    0 <= c < q.children@.len() ==> ref_of(#[trigger] p.children@[c]) == ref_of(
                        q.children@[c],
                    )
            },
{
}

/// Two threads take turns: `x` has the processor and runs, `y` is ready
/// and alone in the ready structure, and nothing is held back.
pub open spec fn takes_turns(s: &Scheduler, x: ThreadRef, y: ThreadRef) -> bool {
    &&& x != y
    &&& s.current == Current::Thread(x)
    &&& s.queue@ == seq![y]
    &&& s.secondary_queue@.len() == 0
    &&& s.thread(x) is Some
    &&& s.thread(x)->0.status == ThreadStatus::Running
    &&& s.thread(y) is Some
    &&& s.thread(y)->0.status == ThreadStatus::Ready
}

/// Two threads are about to take turns: no thread of a process has the
/// processor, `a` and `b` are ready, in that order alone in the ready
/// structure, `a` has run no more than `b`, and nothing is held back.
pub open spec fn about_to_take_turns(s: &Scheduler, a: ThreadRef, b: ThreadRef) -> bool {
    &&& a != b
    &&& name_of(s.current) is None
    &&& s.queue@ == seq![a, b]
    &&& s.secondary_queue@.len() == 0
    &&& s.thread(a) is Some
    &&& s.thread(a)->0.status == ThreadStatus::Ready
    &&& s.thread(b) is Some
    &&& s.thread(b)->0.status == ThreadStatus::Ready
    &&& s.thread(a)->0.runtime <= s.thread(b)->0.runtime
}

/// No starvation between two threads: where they take turns, and neither
/// sleeps, blocks or ends, a pass gives the processor to the one that
/// waited and leaves them taking turns the other way round. So over any
/// number of passes each of the two runs every second time, and after
/// each pass the one that was chosen is the one that runs.
pub proof fn lemma_turns(
    old: &Scheduler,
    new: &Scheduler,
    x: ThreadRef,
    y: ThreadRef,
    regs: StackFrame,
    now: u64,
    next: Current,
    frame: StackFrame,
    space: u64,
)
    requires
        takes_turns(old, x, y),
        new.pass_outcome(old, regs, now, next, frame, space),
    ensures
        next == Current::Thread(y),
        takes_turns(new, y, x),
        frame == old.thread(y)->0.regs,
{
    reveal(Scheduler::pass_outcome);
    reveal_with_fuel(kept, 3);
    reveal_with_fuel(parked, 3);
    let procs = old.processes@;
    let cur = old.current;
    let q = old.queue@;
    assert(q[0] == y);
    assert(seen(procs, cur, y, regs, now) == Some(old.thread(y)->0));
    assert(may_pick(procs, cur, q, 0, regs, now));
    assert(next != Current::Idle);
    assert(next is Thread);
    let c = choose|c: int|
        {
            &&& #[trigger] is_choice(procs, cur, q, c, regs, now)
            &&& q[c] == next->Thread_0
            &&& new.queue@ == requeued(
                new.processes@,
                q.remove(c),
                old.secondary_queue@,
                if name_of(cur) == Some(next->Thread_0) {
                    None
                } else {
                    name_of(cur)
                },
            )
            &&& new.secondary_queue@ == reheld(
                new.processes@,
                q.remove(c),
                old.secondary_queue@,
                if name_of(cur) == Some(next->Thread_0) {
                    None
                } else {
                    name_of(cur)
                },
            )
        };
    assert(may_pick(procs, cur, q, c, regs, now));
    assert(c == 0);
    assert(next == Current::Thread(y));
    assert(q.remove(0) =~= Seq::<ThreadRef>::empty());
    assert(old.secondary_queue@ =~= Seq::<ThreadRef>::empty());
    assert(new.thread(x) == Some(accounted(old.thread(x)->0, regs, now)));
    assert(new.thread(y) == Some(dispatched(old.thread(y)->0, now)));
    assert(prev_seq(Some(x)) =~= seq![x]);
    assert(stays(new.processes@, x));
    assert(new.queue@ =~= seq![x]);
    assert(new.secondary_queue@ =~= Seq::<ThreadRef>::empty());
}

/// The first turn: where two threads are about to take turns, a pass
/// gives the processor to the first of them, not to the idle thread, and
/// leaves them taking turns.
pub proof fn lemma_first_turn(
    old: &Scheduler,
    new: &Scheduler,
    a: ThreadRef,
    b: ThreadRef,
    regs: StackFrame,
    now: u64,
    next: Current,
    frame: StackFrame,
    space: u64,
)
    requires
        about_to_take_turns(old, a, b),
        new.pass_outcome(old, regs, now, next, frame, space),
    ensures
        next == Current::Thread(a),
        takes_turns(new, a, b),
{
    reveal(Scheduler::pass_outcome);
    reveal_with_fuel(kept, 3);
    reveal_with_fuel(parked, 3);
    let procs = old.processes@;
    let cur = old.current;
    let q = old.queue@;
    assert(q[0] == a && q[1] == b);
    assert(seen(procs, cur, a, regs, now) == Some(old.thread(a)->0));
    assert(seen(procs, cur, b, regs, now) == Some(old.thread(b)->0));
    assert(may_pick(procs, cur, q, 0, regs, now));
    assert(may_pick(procs, cur, q, 1, regs, now));
    assert(next != Current::Idle);
    assert(next is Thread);
    let c = choose|c: int|
        {
            &&& #[trigger] is_choice(procs, cur, q, c, regs, now)
            &&& q[c] == next->Thread_0
            &&& new.queue@ == requeued(
                new.processes@,
                q.remove(c),
                old.secondary_queue@,
                if name_of(cur) == Some(next->Thread_0) {
                    None
                } else {
                    name_of(cur)
                },
            )
            &&& new.secondary_queue@ == reheld(
                new.processes@,
                q.remove(c),
                old.secondary_queue@,
                if name_of(cur) == Some(next->Thread_0) {
                    None
                } else {
                    name_of(cur)
                },
            )
        };
    assert(may_pick(procs, cur, q, c, regs, now));
    assert(c == 0) by {
        if c == 1 {
            assert(may_pick(procs, cur, q, 0, regs, now));
        }
    }
    assert(next == Current::Thread(a));
    assert(q.remove(0) =~= seq![b]);
    assert(old.secondary_queue@ =~= Seq::<ThreadRef>::empty());
    assert(new.thread(a) == Some(dispatched(old.thread(a)->0, now)));
    assert(new.thread(b) == Some(old.thread(b)->0));
    assert(prev_seq(None) =~= Seq::<ThreadRef>::empty());
    assert(stays(new.processes@, b));
    assert(new.queue@ =~= seq![b]);
    assert(new.secondary_queue@ =~= Seq::<ThreadRef>::empty());
}

/// The time at which a sleep of `ns` nanoseconds that starts at `now`
/// ends; the end of time where the sum is beyond it.
pub open spec fn wake_time(now: u64, ns: u64) -> u64 {
    if now + ns > u64::MAX {
        u64::MAX
    } else {
        (now + ns) as u64
    }
}

/// Milliseconds in nanoseconds, at most the largest number.
pub open spec fn ms_to_ns(ms: u64) -> u64 {
    if ms * 1_000_000 > u64::MAX {
        u64::MAX
    } else {
        (ms * 1_000_000) as u64
    }
}

/// Whether two strings hold the same bytes.
pub fn same_text(a: &str, b: &str) -> (r: bool)
    ensures
        r == (a.spec_bytes() == b.spec_bytes()),
{
    let x = a.as_bytes();
    let y = b.as_bytes();
    if x.len() != y.len() {
        return false;
    }
    let mut i: usize = 0;
    while i < x.len()
        invariant
            i <= x@.len(),
            x@.len() == y@.len(),
            x@ == a.spec_bytes(),
            y@ == b.spec_bytes(),
            forall|j: int| 0 <= j < i ==> x@[j] == y@[j],
        decreases x@.len() - i,
    {
        if x[i] != y[i] {
            return false;
        }
        i = i + 1;
    }
    assert(x@ =~= y@);
    true
}

} // verus!
