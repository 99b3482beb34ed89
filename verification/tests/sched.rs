use kernel::ints::StackFrame;
use kernel::mem::{Pagemap, PhysMemory, KERNEL_STACK_SIZE, SMALL, USER_STACK_SIZE};
use kernel::sched::{
    block, build_argv_image, current_process, current_thread, enqueue, get_proc_by_name,
    get_proc_by_pid, init, kill_process, next_pid, next_stack_address, next_thread, schedule,
    sleep, sleep_ms, spawn_process, spawn_thread, spawn_with_args, terminate, wake, Current,
    Process, Reaped, Scheduler, Thread, ThreadRef, ThreadStatus,
};

const HHDM: u64 = 0xffff_8000_0000_0000;
const QUANTUM: u64 = 3_000_000;

struct World {
    mem: PhysMemory,
    sched: Scheduler,
}

fn world() -> World {
    let mut mem = PhysMemory::new(0x10_0000, HHDM, 256);
    let mut kernel = Pagemap::new(&mut mem).unwrap();
    assert!(kernel.map(&mut mem, HHDM + 0x1000, 0x1000, 0x3, SMALL));
    let sched = init(kernel, 0xffff_ffff_8000_1000, 0x50_0000);
    World { mem, sched }
}

fn name(pid: u64, tid: u64) -> ThreadRef {
    ThreadRef { pid, tid }
}

fn frame(rip: u64) -> StackFrame {
    let mut f = StackFrame::default();
    f.rip = rip;
    f
}

fn kernel_thread(w: &mut World, pid: u64, kstack: u64) -> u64 {
    spawn_thread(&mut w.sched, &mut w.mem, pid, 0x40_0000, "t", false, kstack, 0).unwrap().0
}

fn status(w: &World, r: ThreadRef) -> ThreadStatus {
    w.sched.get_thread(r).unwrap().status
}

#[test]
fn boot_scheduler_has_the_kernel_process_and_nothing_to_run() {
    let w = world();
    assert_eq!(w.sched.processes.len(), 1);
    assert_eq!(w.sched.processes[0].pid, 0);
    assert_eq!(w.sched.processes[0].name, "kernel");
    assert_eq!(w.sched.processes[0].next_tid, 1);
    assert_eq!(w.sched.next_pid, 1);
    assert_eq!(w.sched.timeslice, 3_000_000);
    assert_eq!(w.sched.current, Current::Nothing);
    assert!(w.sched.queue.is_empty());
    assert!(w.sched.secondary_queue.is_empty());
    assert_eq!(w.sched.idle.tid, 99);
    assert_eq!(w.sched.idle.name, "idle");
    assert_eq!(w.sched.idle.regs.rip, 0xffff_ffff_8000_1000);
    assert_eq!(w.sched.idle.regs.rsp, 0x50_0000 + KERNEL_STACK_SIZE as u64);
    assert_eq!(w.sched.idle.regs.cs, 0x08);
    assert_eq!(w.sched.idle.entry, 0xffff_ffff_8000_1000);
    assert_eq!(w.sched.idle.kstack, 0x50_0000);
    assert_eq!((w.sched.idle.ustack, w.sched.idle.ustack_phys), (0, 0));
    assert_eq!((w.sched.idle.runtime, w.sched.idle.schedule_time), (0, 0));
    assert!(w.sched.idle.args.is_empty());
    assert_eq!(w.sched.next_ustack_addr, 0x0000_7FFF_FF00_0000);
    assert_eq!(w.sched.active_space, w.sched.kernel_map.top_level);
    assert!(current_thread(&w.sched).is_none());
    assert!(current_process(&w.sched).is_none());
}

#[test]
fn processes_get_ids_that_go_up() {
    let mut w = world();
    assert_eq!(spawn_process(&mut w.sched, &mut w.mem, "a"), Some(1));
    assert_eq!(spawn_process(&mut w.sched, &mut w.mem, "b"), Some(2));
    assert_eq!(next_pid(&mut w.sched), 3);
    assert_eq!(spawn_process(&mut w.sched, &mut w.mem, "c"), Some(4));
    assert_eq!(get_proc_by_pid(&w.sched, 2).unwrap().name, "b");
    assert!(get_proc_by_pid(&w.sched, 3).is_none());
    assert_eq!(get_proc_by_name(&w.sched, "c").unwrap().pid, 4);
    assert_eq!(get_proc_by_name(&w.sched, "kernel").unwrap().pid, 0);
    assert!(get_proc_by_name(&w.sched, "d").is_none());
}

#[test]
fn process_gets_the_kernel_half_and_an_empty_lower_half() {
    let mut w = world();
    let pid = spawn_process(&mut w.sched, &mut w.mem, "a").unwrap();
    let p = get_proc_by_pid(&w.sched, pid).unwrap();
    assert_ne!(p.pagemap.top_level, w.sched.kernel_map.top_level);
    assert_eq!(p.pagemap.translate(&w.mem, HHDM + 0x1234), Some(0x1234));
    assert_eq!(p.pagemap.translate(&w.mem, 0x1000), None);
    assert_eq!(p.get_pid(), pid);
    assert_eq!(p.get_name(), "a");
    assert!(p.get_children().is_empty());
}

#[test]
fn process_creation_fails_where_the_arena_is_full() {
    let mut mem = PhysMemory::new(0x10_0000, HHDM, 1);
    let kernel = Pagemap::new(&mut mem).unwrap();
    let mut sched = init(kernel, 0, 0);
    assert_eq!(spawn_process(&mut sched, &mut mem, "a"), None);
    assert_eq!(sched.processes.len(), 1);
    assert_eq!(sched.next_pid, 1);
}

#[test]
fn thread_ids_go_up_within_a_process() {
    let mut w = world();
    let p = spawn_process(&mut w.sched, &mut w.mem, "p").unwrap();
    let q = spawn_process(&mut w.sched, &mut w.mem, "q").unwrap();
    assert_eq!(kernel_thread(&mut w, p, 0x1000), 1);
    assert_eq!(kernel_thread(&mut w, p, 0x2000), 2);
    assert_eq!(kernel_thread(&mut w, q, 0x3000), 1);
    assert_eq!(kernel_thread(&mut w, p, 0x4000), 3);
    assert_eq!(kernel_thread(&mut w, 0, 0x5000), 1);
    assert_eq!(get_proc_by_pid(&w.sched, p).unwrap().next_tid, 4);
    let tids: Vec<u64> =
        get_proc_by_pid(&w.sched, p).unwrap().children.iter().map(|t| t.get_tid()).collect();
    assert_eq!(tids, vec![1, 2, 3]);
    assert_eq!(w.sched.queue, vec![name(p, 1), name(p, 2), name(q, 1), name(p, 3), name(0, 1)]);
}

#[test]
fn thread_in_no_process_is_not_created() {
    let mut w = world();
    assert!(spawn_thread(&mut w.sched, &mut w.mem, 9, 0, "t", false, 0, 0).is_none());
    assert!(w.sched.queue.is_empty());
}

#[test]
fn kernel_thread_starts_on_its_kernel_stack_in_ring_zero() {
    let mut w = world();
    let (tid, image) =
        spawn_thread(&mut w.sched, &mut w.mem, 0, 0x1234, "worker", false, 0x70_0000, 0x99_0000)
            .unwrap();
    assert!(image.is_empty());
    let t = w.sched.get_thread(name(0, tid)).unwrap();
    assert_eq!(t.get_name(), "worker");
    assert_eq!(t.get_parent(), 0);
    assert_eq!(*t.get_status(), ThreadStatus::Ready);
    assert!(!t.is_user());
    assert_eq!(t.entry, 0x1234);
    assert_eq!(t.kstack, 0x70_0000);
    assert_eq!(t.ustack, 0);
    assert_eq!(t.ustack_phys, 0);
    assert_eq!(t.runtime, 0);
    let mut want = StackFrame::default();
    want.cs = 0x08;
    want.ss = 0x10;
    want.rsp = 0x70_0000 + KERNEL_STACK_SIZE as u64;
    want.rip = 0x1234;
    want.rflags = 0x202;
    assert_eq!(t.regs, want);
    assert_eq!(w.sched.next_ustack_addr, 0x0000_7FFF_FF00_0000);
}

#[test]
fn user_thread_starts_on_a_mapped_stack_in_ring_three() {
    let mut w = world();
    let p = spawn_process(&mut w.sched, &mut w.mem, "p").unwrap();
    let args = vec![String::from("ab"), String::from("c")];
    let (tid, image) =
        spawn_with_args(&mut w.sched, &mut w.mem, p, 0x40_0000, "u", true, args, 0x70_0000, 0x80_0000)
            .unwrap();
    let ustack = 0x0000_7FFF_FF00_0000 - USER_STACK_SIZE as u64;
    let t = w.sched.get_thread(name(p, tid)).unwrap();
    assert!(t.is_user());
    assert_eq!(t.ustack, ustack);
    assert_eq!(t.ustack_phys, 0x80_0000);
    assert_eq!(t.args, vec![String::from("ab"), String::from("c")]);
    let mut want = StackFrame::default();
    want.cs = 0x23;
    want.ss = 0x2B;
    want.rsp = 0x0000_7FFF_FF00_0000;
    want.rip = 0x40_0000;
    want.rsi = ustack;
    want.rdi = 2;
    want.rflags = 0x202;
    assert_eq!(t.regs, want);
    assert_eq!(w.sched.next_ustack_addr, ustack);
    let space = get_proc_by_pid(&w.sched, p).unwrap().pagemap;
    assert_eq!(space.translate(&w.mem, ustack), Some(0x80_0000));
    assert_eq!(space.translate(&w.mem, ustack + 0x2345), Some(0x80_2345));
    assert_eq!(space.translate(&w.mem, ustack + USER_STACK_SIZE as u64 - 1), Some(0x80_3fff));
    assert_eq!(space.translate(&w.mem, ustack + USER_STACK_SIZE as u64), None);
    assert_eq!(space.used_pages, 4);
    assert_eq!(w.sched.kernel_map.translate(&w.mem, ustack), None);
    assert_eq!(image, build_argv_image(&vec![String::from("ab"), String::from("c")], ustack));
    let (second, _) =
        spawn_with_args(&mut w.sched, &mut w.mem, p, 0x40_0000, "v", true, Vec::new(), 0x71_0000, 0x90_0000)
            .unwrap();
    assert_eq!(second, 2);
    assert_eq!(w.sched.get_thread(name(p, 2)).unwrap().ustack, ustack - USER_STACK_SIZE as u64);
    assert_eq!(w.sched.get_thread(name(p, 2)).unwrap().regs.rdi, 0);
}

#[test]
fn user_thread_is_not_created_where_its_stack_cannot_be_mapped() {
    let mut w = world();
    let p = spawn_process(&mut w.sched, &mut w.mem, "p").unwrap();
    assert!(spawn_thread(&mut w.sched, &mut w.mem, p, 0, "u", true, 0, 0x80_0001).is_none());
    assert!(get_proc_by_pid(&w.sched, p).unwrap().children.is_empty());
    assert!(w.sched.queue.is_empty());
}

#[test]
fn argument_image_holds_pointers_then_strings() {
    let ustack: u64 = 0x7000_0000;
    let image = build_argv_image(&vec![String::from("ab"), String::from("c")], ustack);
    assert_eq!(image.len(), 0x1000);
    let mut want = vec![0u8; 0x1000];
    want[0..8].copy_from_slice(&(ustack + 0x100).to_le_bytes());
    want[8..16].copy_from_slice(&(ustack + 0x103).to_le_bytes());
    want[0x100] = b'a';
    want[0x101] = b'b';
    want[0x103] = b'c';
    assert_eq!(image, want);
    assert_eq!(build_argv_image(&Vec::new(), ustack), vec![0u8; 0x1000]);
}

#[test]
fn argument_image_takes_text_beyond_ascii() {
    let ustack: u64 = 0x1000;
    let image = build_argv_image(&vec![String::from("é"), String::new(), String::from("z")], ustack);
    assert_eq!(&image[0x100..0x106], &[0xc3, 0xa9, 0, 0, b'z', 0]);
    assert_eq!(&image[0..8], &0x1100u64.to_le_bytes());
    assert_eq!(&image[8..16], &0x1103u64.to_le_bytes());
    assert_eq!(&image[16..24], &0x1104u64.to_le_bytes());
    assert_eq!(&image[24..32], &[0u8; 8]);
}

#[test]
fn argument_pointers_win_over_strings_where_they_meet() {
    let args: Vec<String> = (0..40).map(|_| String::from("x")).collect();
    let image = build_argv_image(&args, 0);
    assert_eq!(&image[0x100..0x108], &(0x100u64 + 2 * 32).to_le_bytes());
    assert_eq!(&image[39 * 8..40 * 8], &(0x100u64 + 2 * 39).to_le_bytes());
    assert_eq!(&image[40 * 8..41 * 8], &[0u8; 8]);
    assert_eq!(image[41 * 8], b'x');
    assert_eq!(image[41 * 8 + 1], 0);
}

#[test]
fn first_pass_picks_a_thread_and_later_passes_take_turns() {
    let mut w = world();
    let p = spawn_process(&mut w.sched, &mut w.mem, "p").unwrap();
    let a = spawn_thread(&mut w.sched, &mut w.mem, p, 0xa000, "a", true, 0x70_0000, 0x80_0000)
        .unwrap()
        .0;
    let b = spawn_thread(&mut w.sched, &mut w.mem, p, 0xb000, "b", true, 0x71_0000, 0x90_0000)
        .unwrap()
        .0;
    let space = get_proc_by_pid(&w.sched, p).unwrap().pagemap.top_level;
    let out = schedule(&mut w.sched, &mut w.mem, &frame(0x1), 0);
    assert_eq!(out.next, Current::Thread(name(p, a)));
    assert_eq!(out.frame.rip, 0xa000);
    assert_eq!(out.frame.cs, 0x23);
    assert_eq!(out.address_space, space);
    assert!(out.switch_space);
    assert_eq!(w.sched.active_space, space);
    assert_eq!(out.quantum, 3_000_000);
    assert_eq!(out.vector, 0xFF);
    assert!(out.reaped.is_empty());
    assert_eq!(status(&w, name(p, a)), ThreadStatus::Running);
    assert_eq!(w.sched.queue, vec![name(p, b)]);
    let mut seen = vec![a];
    let mut now = 0;
    for _ in 0..5 {
        now += QUANTUM;
        let out = schedule(&mut w.sched, &mut w.mem, &frame(0x2), now);
        match out.next {
            Current::Thread(r) => seen.push(r.tid),
            _ => panic!("the idle thread ran while threads were ready"),
        }
    }
    assert_eq!(seen, vec![a, b, a, b, a, b]);
    assert_eq!(w.sched.get_thread(name(p, a)).unwrap().runtime, 3 * QUANTUM);
    assert_eq!(w.sched.get_thread(name(p, b)).unwrap().runtime, 2 * QUANTUM);
}

#[test]
fn pass_keeps_the_frame_of_the_thread_that_ran() {
    let mut w = world();
    let a = kernel_thread(&mut w, 0, 0x1000);
    let b = kernel_thread(&mut w, 0, 0x2000);
    schedule(&mut w.sched, &mut w.mem, &frame(0x1), 10);
    assert_eq!(w.sched.current, Current::Thread(name(0, a)));
    assert_eq!(w.sched.get_thread(name(0, a)).unwrap().schedule_time, 10);
    let mut trap = frame(0xabcd);
    trap.rax = 42;
    let out = schedule(&mut w.sched, &mut w.mem, &trap, 25);
    assert_eq!(out.next, Current::Thread(name(0, b)));
    let t = w.sched.get_thread(name(0, a)).unwrap();
    assert_eq!(t.regs, trap);
    assert_eq!(t.status, ThreadStatus::Ready);
    assert_eq!(t.runtime, 15);
    assert_eq!(w.sched.queue, vec![name(0, a)]);
    let out = schedule(&mut w.sched, &mut w.mem, &frame(0x5), 30);
    assert_eq!(out.next, Current::Thread(name(0, a)));
    assert_eq!(out.frame, trap);
    assert_eq!(out.address_space, w.sched.kernel_map.top_level);
}

#[test]
fn pass_picks_the_thread_that_has_run_least() {
    let mut w = world();
    let a = kernel_thread(&mut w, 0, 0x1000);
    let b = kernel_thread(&mut w, 0, 0x2000);
    let c = kernel_thread(&mut w, 0, 0x3000);
    for (tid, runtime) in [(a, 50), (b, 20), (c, 20)] {
        let at = w.sched.find_thread(name(0, tid)).unwrap();
        w.sched.processes[at.0].children[at.1].runtime = runtime;
    }
    let out = schedule(&mut w.sched, &mut w.mem, &frame(0), 0);
    assert_eq!(out.next, Current::Thread(name(0, b)));
    assert_eq!(w.sched.queue, vec![name(0, a), name(0, c)]);
    assert_eq!(next_thread(&mut w.sched, 0), Some(name(0, c)));
    assert_eq!(next_thread(&mut w.sched, 0), Some(name(0, a)));
    assert_eq!(next_thread(&mut w.sched, 0), None);
}

#[test]
fn idle_thread_runs_when_nothing_else_can() {
    let mut w = world();
    let out = schedule(&mut w.sched, &mut w.mem, &frame(0x1), 5);
    assert_eq!(out.next, Current::Idle);
    assert_eq!(out.frame.rip, 0xffff_ffff_8000_1000);
    assert_eq!(out.address_space, w.sched.kernel_map.top_level);
    assert_eq!(w.sched.idle.status, ThreadStatus::Running);
    assert_eq!(current_thread(&w.sched).unwrap().tid, 99);
    let out = schedule(&mut w.sched, &mut w.mem, &frame(0x7777), 9);
    assert_eq!(out.next, Current::Idle);
    assert_eq!(out.frame.rip, 0x7777);
    assert_eq!(w.sched.idle.runtime, 4);
    assert!(w.sched.queue.is_empty());
    let a = kernel_thread(&mut w, 0, 0x1000);
    let out = schedule(&mut w.sched, &mut w.mem, &frame(0x8888), 12);
    assert_eq!(out.next, Current::Thread(name(0, a)));
    assert_eq!(w.sched.idle.status, ThreadStatus::Ready);
    assert_eq!(w.sched.idle.regs.rip, 0x8888);
    assert!(w.sched.queue.is_empty());
}

#[test]
fn sleeping_thread_waits_for_its_deadline() {
    let mut w = world();
    let a = kernel_thread(&mut w, 0, 0x1000);
    schedule(&mut w.sched, &mut w.mem, &frame(0), 1000);
    sleep_ms(&mut w.sched, 100, 1000);
    assert_eq!(status(&w, name(0, a)), ThreadStatus::Sleeping(100_001_000));
    let out = schedule(&mut w.sched, &mut w.mem, &frame(0x11), 1000);
    assert_eq!(out.next, Current::Idle);
    assert_eq!(w.sched.queue, vec![name(0, a)]);
    let mut now = 1000;
    while now + QUANTUM < 100_001_000 {
        now += QUANTUM;
        let out = schedule(&mut w.sched, &mut w.mem, &frame(0x12), now);
        assert_eq!(out.next, Current::Idle);
        assert_eq!(status(&w, name(0, a)), ThreadStatus::Sleeping(100_001_000));
    }
    let out = schedule(&mut w.sched, &mut w.mem, &frame(0x13), 100_000_999);
    assert_eq!(out.next, Current::Idle);
    let out = schedule(&mut w.sched, &mut w.mem, &frame(0x14), 100_001_000);
    assert_eq!(out.next, Current::Thread(name(0, a)));
    assert_eq!(out.frame.rip, 0x11);
    assert_eq!(status(&w, name(0, a)), ThreadStatus::Running);
}

#[test]
fn sleep_ends_at_the_end_of_time_at_the_latest() {
    let mut w = world();
    let a = kernel_thread(&mut w, 0, 0x1000);
    schedule(&mut w.sched, &mut w.mem, &frame(0), 0);
    sleep(&mut w.sched, u64::MAX, 5);
    assert_eq!(status(&w, name(0, a)), ThreadStatus::Sleeping(u64::MAX));
    sleep_ms(&mut w.sched, u64::MAX, 5);
    assert_eq!(status(&w, name(0, a)), ThreadStatus::Sleeping(u64::MAX));
    sleep(&mut w.sched, 7, 5);
    assert_eq!(status(&w, name(0, a)), ThreadStatus::Sleeping(12));
}

#[test]
fn blocked_thread_is_never_picked_until_it_is_woken() {
    let mut w = world();
    let a = kernel_thread(&mut w, 0, 0x1000);
    let b = kernel_thread(&mut w, 0, 0x2000);
    schedule(&mut w.sched, &mut w.mem, &frame(0), 0);
    assert!(block(&mut w.sched));
    assert_eq!(status(&w, name(0, a)), ThreadStatus::Blocked);
    let mut now = 0;
    let mut ran = Vec::new();
    for _ in 0..4 {
        now += QUANTUM;
        let out = schedule(&mut w.sched, &mut w.mem, &frame(0), now);
        ran.push(out.next);
        assert_eq!(status(&w, name(0, a)), ThreadStatus::Blocked);
        assert_eq!(w.sched.secondary_queue.iter().copied().collect::<Vec<_>>(), vec![name(0, a)]);
    }
    let b_runs = Current::Thread(name(0, b));
    assert_eq!(ran, vec![b_runs, Current::Idle, b_runs, Current::Idle]);
    assert_eq!(w.sched.queue, vec![name(0, b)]);
    wake(&mut w.sched, name(0, a));
    assert_eq!(status(&w, name(0, a)), ThreadStatus::Ready);
    assert_eq!(w.sched.queue, vec![name(0, b), name(0, a)]);
    assert!(w.sched.secondary_queue.is_empty());
    wake(&mut w.sched, name(0, a));
    assert_eq!(w.sched.queue, vec![name(0, b), name(0, a)]);
    let at = w.sched.find_thread(name(0, b)).unwrap();
    assert!(w.sched.processes[at.0].children[at.1].runtime > 0);
    let out = schedule(&mut w.sched, &mut w.mem, &frame(0), now + QUANTUM);
    assert_eq!(out.next, Current::Thread(name(0, a)));
    assert!(w.sched.secondary_queue.is_empty());
    assert_eq!(w.sched.queue, vec![name(0, b)]);
}

#[test]
fn voluntary_calls_leave_the_other_threads_alone() {
    let mut w = world();
    let a = kernel_thread(&mut w, 0, 0x1000);
    let b = kernel_thread(&mut w, 0, 0x2000);
    let p = spawn_process(&mut w.sched, &mut w.mem, "p").unwrap();
    let c = kernel_thread(&mut w, p, 0x3000);
    schedule(&mut w.sched, &mut w.mem, &frame(0), 0);
    assert_eq!(w.sched.current, Current::Thread(name(0, a)));
    let queue = w.sched.queue.clone();
    let others = |w: &World| {
        let tb = w.sched.get_thread(name(0, b)).unwrap();
        let tc = w.sched.get_thread(name(p, c)).unwrap();
        (tb.status, tb.runtime, tb.regs, tc.status, tc.runtime, tc.regs)
    };
    let before = others(&w);
    let mine = |w: &World| {
        let t = w.sched.get_thread(name(0, a)).unwrap();
        (t.tid, t.runtime, t.regs, t.kstack, t.schedule_time)
    };
    let me = mine(&w);
    sleep(&mut w.sched, 50, 7);
    assert_eq!(status(&w, name(0, a)), ThreadStatus::Sleeping(57));
    assert_eq!((others(&w), mine(&w)), (before, me));
    assert!(block(&mut w.sched));
    assert_eq!(status(&w, name(0, a)), ThreadStatus::Blocked);
    assert_eq!((others(&w), mine(&w)), (before, me));
    sleep_ms(&mut w.sched, 2, 7);
    assert_eq!(status(&w, name(0, a)), ThreadStatus::Sleeping(2_000_007));
    assert_eq!((others(&w), mine(&w)), (before, me));
    assert!(terminate(&mut w.sched));
    assert_eq!(status(&w, name(0, a)), ThreadStatus::Terminated);
    assert_eq!((others(&w), mine(&w)), (before, me));
    assert_eq!(w.sched.queue, queue);
    assert_eq!(w.sched.processes.len(), 2);
    assert_eq!(w.sched.processes[0].children.len(), 2);
}

#[test]
fn wake_of_what_is_not_blocked_changes_nothing() {
    let mut w = world();
    let a = kernel_thread(&mut w, 0, 0x1000);
    wake(&mut w.sched, name(0, a));
    wake(&mut w.sched, name(0, 77));
    wake(&mut w.sched, name(5, 1));
    assert_eq!(w.sched.queue, vec![name(0, a)]);
    assert_eq!(status(&w, name(0, a)), ThreadStatus::Ready);
}

#[test]
fn voluntary_calls_need_a_running_thread() {
    let mut w = world();
    assert!(!block(&mut w.sched));
    assert!(!terminate(&mut w.sched));
    sleep(&mut w.sched, 5, 5);
    schedule(&mut w.sched, &mut w.mem, &frame(0), 0);
    assert_eq!(w.sched.current, Current::Idle);
    assert!(!block(&mut w.sched));
    assert!(!terminate(&mut w.sched));
    assert_eq!(w.sched.idle.status, ThreadStatus::Running);
}

#[test]
fn terminated_thread_is_reaped_by_the_next_pass_and_only_once() {
    let mut w = world();
    let p = spawn_process(&mut w.sched, &mut w.mem, "p").unwrap();
    let a = spawn_thread(&mut w.sched, &mut w.mem, p, 0xa000, "a", true, 0x70_0000, 0x80_0000)
        .unwrap()
        .0;
    let b = kernel_thread(&mut w, p, 0x71_0000);
    let ustack = w.sched.get_thread(name(p, a)).unwrap().ustack;
    let space = get_proc_by_pid(&w.sched, p).unwrap().pagemap;
    assert_eq!(space.translate(&w.mem, ustack + 8), Some(0x80_0008));
    schedule(&mut w.sched, &mut w.mem, &frame(0), 0);
    assert_eq!(w.sched.current, Current::Thread(name(p, a)));
    assert_eq!(current_process(&w.sched).unwrap().pid, p);
    assert!(terminate(&mut w.sched));
    assert_eq!(status(&w, name(p, a)), ThreadStatus::Terminated);
    let out = schedule(&mut w.sched, &mut w.mem, &frame(0), QUANTUM);
    assert_eq!(
        out.reaped,
        vec![Reaped { pid: p, tid: a, kstack: 0x70_0000, ustack, ustack_phys: 0x80_0000 }]
    );
    assert_eq!(out.next, Current::Thread(name(p, b)));
    assert!(w.sched.get_thread(name(p, a)).is_none());
    let left: Vec<u64> = get_proc_by_pid(&w.sched, p).unwrap().children.iter().map(|t| t.tid).collect();
    assert_eq!(left, vec![b]);
    let space = get_proc_by_pid(&w.sched, p).unwrap().pagemap;
    assert_eq!(space.translate(&w.mem, ustack), None);
    assert_eq!(space.translate(&w.mem, ustack + 0x3fff), None);
    assert_eq!(space.used_pages, 0);
    assert!(w.sched.queue.is_empty());
    for i in 2..6 {
        let out = schedule(&mut w.sched, &mut w.mem, &frame(0), i * QUANTUM);
        assert!(out.reaped.is_empty());
        assert_ne!(out.next, Current::Thread(name(p, a)));
        assert_eq!(get_proc_by_pid(&w.sched, p).unwrap().children.len(), 1);
    }
}

#[test]
fn terminated_thread_in_the_queue_is_reaped_too() {
    let mut w = world();
    let a = kernel_thread(&mut w, 0, 0x1000);
    let b = kernel_thread(&mut w, 0, 0x2000);
    let at = w.sched.find_thread(name(0, b)).unwrap();
    w.sched.processes[at.0].children[at.1].set_status(ThreadStatus::Terminated);
    let out = schedule(&mut w.sched, &mut w.mem, &frame(0), 0);
    assert_eq!(out.next, Current::Thread(name(0, a)));
    assert_eq!(out.reaped.len(), 1);
    assert_eq!(out.reaped[0].tid, b);
    assert_eq!(out.reaped[0].kstack, 0x2000);
    assert!(w.sched.queue.is_empty());
    assert_eq!(w.sched.processes[0].children.len(), 1);
}

#[test]
fn killed_process_leaves_the_registry_and_its_threads_are_reaped() {
    let mut w = world();
    let p = spawn_process(&mut w.sched, &mut w.mem, "p").unwrap();
    let q = spawn_process(&mut w.sched, &mut w.mem, "q").unwrap();
    let a = kernel_thread(&mut w, p, 0x1000);
    let b = kernel_thread(&mut w, p, 0x2000);
    let c = kernel_thread(&mut w, q, 0x3000);
    schedule(&mut w.sched, &mut w.mem, &frame(0), 0);
    assert_eq!(w.sched.current, Current::Thread(name(p, a)));
    assert!(!kill_process(&mut w.sched, 9));
    assert!(kill_process(&mut w.sched, p));
    assert!(!kill_process(&mut w.sched, p));
    assert!(get_proc_by_pid(&w.sched, p).is_none());
    assert!(get_proc_by_pid(&w.sched, q).is_some());
    assert_eq!(w.sched.zombies.len(), 2);
    assert!(w.sched.zombies.iter().all(|t| t.status == ThreadStatus::Terminated));
    assert!(current_thread(&w.sched).is_none());
    let out = schedule(&mut w.sched, &mut w.mem, &frame(0), QUANTUM);
    let mut freed: Vec<(u64, u64, u64)> = out.reaped.iter().map(|r| (r.pid, r.tid, r.kstack)).collect();
    freed.sort();
    assert_eq!(freed, vec![(p, a, 0x1000), (p, b, 0x2000)]);
    assert_eq!(out.next, Current::Thread(name(q, c)));
    assert!(w.sched.zombies.is_empty());
    assert!(w.sched.queue.is_empty());
    let out = schedule(&mut w.sched, &mut w.mem, &frame(0), 2 * QUANTUM);
    assert!(out.reaped.is_empty());
    assert_eq!(out.next, Current::Idle);
    assert_eq!(w.sched.queue, vec![name(q, c)]);
    let out = schedule(&mut w.sched, &mut w.mem, &frame(0), 3 * QUANTUM);
    assert!(out.reaped.is_empty());
    assert_eq!(out.next, Current::Thread(name(q, c)));
}

#[test]
fn queue_entries_of_threads_that_are_gone_are_dropped() {
    let mut w = world();
    enqueue(&mut w.sched, name(4, 4));
    let a = kernel_thread(&mut w, 0, 0x1000);
    enqueue(&mut w.sched, name(0, 50));
    let out = schedule(&mut w.sched, &mut w.mem, &frame(0), 0);
    assert_eq!(out.next, Current::Thread(name(0, a)));
    assert!(w.sched.queue.is_empty());
}

#[test]
fn address_space_is_switched_only_between_processes() {
    let mut w = world();
    let p = spawn_process(&mut w.sched, &mut w.mem, "p").unwrap();
    kernel_thread(&mut w, 0, 0x1000);
    kernel_thread(&mut w, p, 0x2000);
    kernel_thread(&mut w, p, 0x3000);
    let kernel = w.sched.kernel_map.top_level;
    let space = get_proc_by_pid(&w.sched, p).unwrap().pagemap.top_level;
    let mut seen = Vec::new();
    for i in 0..4 {
        let out = schedule(&mut w.sched, &mut w.mem, &frame(0), i * QUANTUM);
        seen.push((out.address_space, out.switch_space));
        assert_eq!(w.sched.active_space, out.address_space);
    }
    assert_eq!(seen, vec![(kernel, false), (space, true), (space, false), (kernel, true)]);
}

#[test]
fn yield_raises_the_vector_of_the_preemption_timer() {
    assert_eq!(kernel::sched::yld(), 0xFF);
}

#[test]
fn idle_thread_and_children_are_at_hand() {
    let mut w = world();
    assert_eq!(kernel::sched::idle0(&w.sched).tid, 99);
    let a = kernel_thread(&mut w, 0, 0x1000);
    w.sched.processes[0].get_children_mut()[0].runtime = 7;
    assert_eq!(w.sched.get_thread(name(0, a)).unwrap().runtime, 7);
}

#[test]
fn stack_addresses_go_down_by_one_stack() {
    let mut w = world();
    let top = 0x0000_7FFF_FF00_0000u64;
    assert_eq!(next_stack_address(&mut w.sched), top - USER_STACK_SIZE as u64);
    assert_eq!(next_stack_address(&mut w.sched), top - 2 * USER_STACK_SIZE as u64);
}

#[test]
fn process_hands_out_thread_ids_from_one() {
    let mut p = Process::new("x", 7, Pagemap { top_level: 0, used_pages: 0 });
    assert_eq!(p.next_tid(), 1);
    assert_eq!(p.next_tid(), 2);
    assert_eq!(p.find_child(1), None);
}

#[test]
fn thread_that_has_run_less_comes_first() {
    let mut mem = PhysMemory::new(0x10_0000, HHDM, 4);
    let mut p = Process::new("x", 7, Pagemap { top_level: 0, used_pages: 0 });
    let (mut a, _) =
        Thread::new(&mut p, &mut mem, 1, "a", false, Vec::new(), 0x1000, 0, 0).unwrap();
    let (b, _) =
        Thread::new_with_tid(&mut p, &mut mem, 2, "b", false, Vec::new(), 9, 0x2000, 0, 0).unwrap();
    assert_eq!((a.tid, b.tid), (1, 9));
    assert_eq!(a.parent, 7);
    assert!(!a.precedes(&b));
    a.runtime = 5;
    assert!(b.precedes(&a));
    assert!(!a.precedes(&b));
}
