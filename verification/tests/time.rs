use kernel::arch::time::tsc::{measure_cpu_frequency, TscSample};
use kernel::arch::time::{
    busywait_ms, busywait_ns, elapsed_time_pretty, get_timer, get_timer_by_name, get_timers,
    power_of_ten, preferred_timer, preferred_timer_ms, preferred_timer_ns, preferred_timer_pretty,
    register_timer, Timer, TimerKind, Timers,
};
use kernel::mem::{Pagemap, PhysMemory};
use kernel::time::kvm::{supported, tsc_freq, PvClockVcpuTimeInfo};
use kernel::time::lapic::{arm, calibrate_timer, register_address};
use kernel::time::{
    busywait, current_pit_ticks, pit_tick, timer_interrupt_handler, PitClock, PitWrite,
};
use kernel::utils::cpu::CpuidResult;

fn pit() -> Timer {
    kernel::time::pit::init().1
}

fn tsc(freq: u64, now: u64) -> Timer {
    kernel::arch::time::tsc::init(freq, now)
}

fn kvm() -> Timer {
    kernel::time::kvm::init(true, 0x5000, 50, 10_000_000).unwrap().timer
}

#[test]
fn time_is_written_with_the_digits_asked_for() {
    let ns = 3_723_004_005_006;
    assert_eq!(elapsed_time_pretty(ns, 3), "01:02:03.004");
    assert_eq!(elapsed_time_pretty(ns, 9), "01:02:03.004005006");
    assert_eq!(elapsed_time_pretty(ns, 5), "01:02:03.00400");
    assert_eq!(elapsed_time_pretty(ns, 0), "01:02:03.0");
    assert_eq!(elapsed_time_pretty(0, 5), "00:00:00.00000");
    assert_eq!(elapsed_time_pretty(999_999_999, 1), "00:00:00.9");
    assert_eq!(elapsed_time_pretty(59_999_999_999, 2), "00:00:59.99");
    assert_eq!(elapsed_time_pretty(360_000_000_000_000, 1), "100:00:00.0");
    assert_eq!(elapsed_time_pretty(u64::MAX, 9), "5124095:34:33.709551615");
}

#[test]
fn powers_of_ten_up_to_nine() {
    assert_eq!(power_of_ten(0), 1);
    assert_eq!(power_of_ten(1), 10);
    assert_eq!(power_of_ten(9), 1_000_000_000);
}

#[test]
fn clock_kinds_have_names_and_numbers() {
    for (kind, name, number) in [
        (TimerKind::KVM, "kvm", 0u64),
        (TimerKind::TSC, "tsc", 1),
        (TimerKind::HPET, "hpet", 2),
        (TimerKind::PIT, "pit", 3),
    ] {
        assert_eq!(kind.name(), name);
        assert_eq!(<&'static str>::from(kind), name);
        assert_eq!(TimerKind::from_name(name), kind);
        assert_eq!(kind.number(), number);
        assert_eq!(u64::from(kind), number);
        assert_eq!(TimerKind::from(number), kind);
    }
    assert_eq!(TimerKind::from("sundial"), TimerKind::PIT);
    assert_eq!(TimerKind::from("KVM"), TimerKind::PIT);
    assert_eq!(TimerKind::from(17u64), TimerKind::PIT);
}

#[test]
fn clocks_turn_readings_into_nanoseconds() {
    assert_eq!(pit().elapsed(5), 5_000_000);
    assert_eq!(tsc(2_000_000_000, 100).elapsed(2_000_000_100), 1_000_000_000);
    assert_eq!(tsc(3, 0).elapsed(2), 666_666_666);
    assert_eq!(tsc(1, 0).elapsed(18), 18_000_000_000);
    assert_eq!(kvm().get_offset(), 40);
    assert_eq!(kvm().elapsed(50), 10);
    assert_eq!(Timer::new(TimerKind::HPET, 1, 2, false, 3, 4).elapsed(99), 0);
    assert_eq!(pit().elapsed_pretty(1500, 3), "00:00:01.500");
}

#[test]
fn timer_getters_give_the_fields() {
    let mut t = Timer::new(TimerKind::TSC, 1, 2, true, 3, 4);
    assert_eq!(*t.kind(), TimerKind::TSC);
    assert_eq!(t.name(), "tsc");
    assert!(t.is_supported());
    assert_eq!(t.priority(), 3);
    assert_eq!(t.get_offset(), 4);
    t.set_offset(9);
    assert_eq!(t, Timer { kind: TimerKind::TSC, start: 1, frequency: 2, supported: true, priority: 3, offset: 9 });
}

#[test]
fn clocks_are_kept_in_the_order_of_preference() {
    let timers = kernel::arch::time::init(pit(), Some(kvm()), tsc(1000, 0));
    let kinds: Vec<TimerKind> = get_timers(&timers).as_slice().iter().map(|t| t.kind).collect();
    assert_eq!(kinds, vec![TimerKind::KVM, TimerKind::TSC, TimerKind::PIT]);
    let without = kernel::arch::time::init(pit(), None, tsc(1000, 0));
    let kinds: Vec<TimerKind> = get_timers(&without).as_slice().iter().map(|t| t.kind).collect();
    assert_eq!(kinds, vec![TimerKind::TSC, TimerKind::PIT]);
}

#[test]
fn clocks_of_one_priority_keep_the_order_of_registration() {
    let mut timers = Timers::new();
    for (i, priority) in [5u8, 1, 5, 3, 5, 0].iter().enumerate() {
        register_timer(&mut timers, Timer::new(TimerKind::TSC, i as u64, 1, true, *priority, 0));
    }
    let order: Vec<(u8, u64)> =
        get_timers(&timers).as_slice().iter().map(|t| (t.priority, t.start)).collect();
    assert_eq!(order, vec![(0, 5), (1, 1), (3, 3), (5, 0), (5, 2), (5, 4)]);
}

#[test]
fn eleventh_clock_is_not_registered() {
    let mut timers = Timers::new();
    for i in 0..12 {
        register_timer(&mut timers, Timer::new(TimerKind::PIT, i, 1, true, 200 - i as u8, 0));
    }
    assert_eq!(get_timers(&timers).len(), 10);
    assert!(get_timers(&timers).is_full());
    let starts: Vec<u64> = get_timers(&timers).as_slice().iter().map(|t| t.start).collect();
    assert_eq!(starts, vec![9, 8, 7, 6, 5, 4, 3, 2, 1, 0]);
}

#[test]
fn clocks_are_found_by_kind_and_by_name() {
    let timers = kernel::arch::time::init(pit(), Some(kvm()), tsc(1000, 7));
    assert_eq!(get_timer(&timers, &TimerKind::TSC).start, 7);
    assert_eq!(get_timer(&timers, &TimerKind::PIT).priority, 255);
    assert_eq!(get_timer(&timers, &TimerKind::KVM).offset, 40);
    assert_eq!(get_timer_by_name(&timers, "kvm").priority, 0);
    assert_eq!(get_timer_by_name(&timers, "tsc").frequency, 1000);
    assert_eq!(get_timer_by_name(&timers, "pit").kind, TimerKind::PIT);
    let mut twice = Timers::new();
    register_timer(&mut twice, tsc(5, 1));
    register_timer(&mut twice, tsc(6, 2));
    assert_eq!(get_timer(&twice, &TimerKind::TSC).frequency, 5);
    assert_eq!(get_timer_by_name(&twice, "tsc").start, 1);
}

#[test]
fn preferred_clock_is_the_first_that_is_supported() {
    let mut timers = Timers::new();
    assert!(preferred_timer(&timers).is_none());
    assert_eq!(preferred_timer_ns(&timers, 77), 0);
    assert_eq!(preferred_timer_pretty(&timers, 77, 2), "00:00:00.00");
    register_timer(&mut timers, Timer::new(TimerKind::KVM, 0, 1, false, 0, 0));
    assert!(preferred_timer(&timers).is_none());
    register_timer(&mut timers, pit());
    register_timer(&mut timers, tsc(1_000_000_000, 0));
    assert_eq!(preferred_timer(&timers).unwrap().kind, TimerKind::TSC);
    assert_eq!(preferred_timer_ns(&timers, 2_500_000), 2_500_000);
    assert_eq!(preferred_timer_ms(&timers, 2_500_000), 2);
    assert_eq!(preferred_timer_pretty(&timers, 1_250_000_000, 2), "00:00:01.25");
}

#[test]
fn waits_end_when_the_time_has_passed() {
    assert!(!busywait_ns(100, 149, 50));
    assert!(busywait_ns(100, 150, 50));
    assert!(busywait_ns(100, 100, 0));
    assert!(!busywait_ms(0, 49_999_999, 50));
    assert!(busywait_ms(0, 50_000_000, 50));
    assert!(!busywait_ms(0, u64::MAX, u64::MAX));
    assert!(!busywait(10, 14, 5));
    assert!(busywait(10, 15, 5));
}

#[test]
fn frequency_is_the_mean_of_three_measurements() {
    let s = |cycles: u64, ticks: u64| TscSample {
        start_cycles: 1000,
        start_ticks: 10,
        end_cycles: 1000 + cycles,
        end_ticks: 10 + ticks,
    };
    assert_eq!(measure_cpu_frequency(Some(5), &[s(1, 0), s(1, 1), s(1, 1)]), Some(5));
    assert_eq!(
        measure_cpu_frequency(None, &[s(150_000_000, 50), s(150_000_050, 50), s(152_000_000, 50)]),
        Some((3_000_000_000u64 + 3_000_001_000 + 3_040_000_000) / 3)
    );
    assert_eq!(measure_cpu_frequency(None, &[s(1, 1), s(1, 0), s(1, 1)]), None);
    assert_eq!(measure_cpu_frequency(None, &[s(7, 2), s(7, 2), s(8, 2)]), Some(10_000 / 3));
    let back = TscSample { start_cycles: 5, start_ticks: 0, end_cycles: 4, end_ticks: 1 };
    assert_eq!(measure_cpu_frequency(None, &[back, s(1, 1), s(1, 1)]), None);
    let huge = TscSample { start_cycles: 0, start_ticks: 0, end_cycles: u64::MAX, end_ticks: 1 };
    assert_eq!(measure_cpu_frequency(None, &[huge, s(1, 1), s(1, 1)]), None);
}

#[test]
fn kvm_clock_is_offered_by_a_feature_bit() {
    let id = |eax: u32| CpuidResult { eax, ebx: 0, ecx: 0, edx: 0 };
    assert!(supported(0x4000_0000, &id(0x8)));
    assert!(supported(0x4000_0100, &id(0xffff_ffff)));
    assert!(!supported(0x4000_0000, &id(0x7)));
    assert!(!supported(0, &id(0x8)));
}

#[test]
fn kvm_table_starts_all_zero() {
    let t = PvClockVcpuTimeInfo::new();
    assert_eq!((t.version, t.pad0, t.tsc_timestamp, t.system_time), (0, 0, 0, 0));
    assert_eq!((t.tsc_to_system_mul, t.tsc_shift, t.flags, t.pad), (0, 0, 0, [0, 0]));
}

#[test]
fn kvm_table_gives_frequency_and_time() {
    let mut t = PvClockVcpuTimeInfo::new();
    t.tsc_to_system_mul = 0x8000_0000;
    assert_eq!(tsc_freq(&t), 2_000_000_000);
    t.tsc_shift = -1;
    assert_eq!(tsc_freq(&t), 4_000_000_000);
    t.tsc_shift = 1;
    assert_eq!(tsc_freq(&t), 1_000_000_000);
    t.tsc_shift = 0;
    t.tsc_timestamp = 100;
    t.system_time = 7;
    assert_eq!(t.system_time_at(1100), 507);
    assert_eq!(t.system_time_at(100), 7);
    t.tsc_shift = 2;
    assert_eq!(t.system_time_at(1100), 2007);
    t.tsc_shift = -3;
    assert_eq!(t.system_time_at(1100), 69);
}

#[test]
fn readings_that_cannot_be_turned_into_time_are_refused() {
    assert_eq!(pit().try_elapsed(5), Some(5_000_000));
    assert_eq!(pit().try_elapsed(u64::MAX / 1_000_000), Some(18_446_744_073_709_000_000));
    assert_eq!(pit().try_elapsed(u64::MAX / 1_000_000 + 1), None);
    assert_eq!(tsc(2_000_000_000, 100).try_elapsed(2_000_000_100), Some(1_000_000_000));
    assert_eq!(tsc(2_000_000_000, 100).try_elapsed(99), None);
    assert_eq!(tsc(0, 0).try_elapsed(5), None);
    assert_eq!(tsc(1, 0).try_elapsed(u64::MAX), None);
    assert_eq!(tsc(1_000_000_000, 0).try_elapsed(u64::MAX), Some(u64::MAX));
    assert_eq!(kvm().try_elapsed(39), None);
    assert_eq!(kvm().try_elapsed(40), Some(0));
    assert_eq!(Timer::new(TimerKind::HPET, 9, 0, false, 0, 9).try_elapsed(1), Some(0));
    let mut t = PvClockVcpuTimeInfo::new();
    t.tsc_to_system_mul = 0x8000_0000;
    t.tsc_timestamp = 100;
    t.system_time = 7;
    assert_eq!(t.try_system_time_at(1100), Some(507));
    assert_eq!(t.try_system_time_at(99), None);
    t.tsc_shift = -128;
    assert_eq!(t.try_system_time_at(1100), None);
    t.tsc_shift = 0;
    t.system_time = u64::MAX - 499;
    assert_eq!(t.try_system_time_at(1100), None);
    t.system_time = u64::MAX - 500;
    assert_eq!(t.try_system_time_at(1100), Some(u64::MAX));
    t.tsc_shift = 63;
    t.tsc_to_system_mul = u32::MAX;
    t.tsc_timestamp = 0;
    assert_eq!(t.try_system_time_at(u64::MAX), None);
    t.tsc_to_system_mul = 0;
    t.system_time = 5;
    assert_eq!(t.try_system_time_at(u64::MAX), Some(5));
}

#[test]
fn kvm_clock_is_set_up_where_it_is_offered() {
    assert!(kernel::time::kvm::init(false, 0x5000, 50, 0).is_none());
    let s = kernel::time::kvm::init(true, 0x5000, 50, 10_000_000).unwrap();
    assert_eq!(s.msr, 0x4b56_4d01);
    assert_eq!(s.value, 0x5001);
    assert_eq!(
        s.timer,
        Timer { kind: TimerKind::KVM, start: 0, frequency: 1, supported: true, priority: 0, offset: 40 }
    );
}

#[test]
fn interval_timer_is_set_to_a_millisecond() {
    let (writes, timer) = kernel::time::pit::init();
    assert_eq!(
        writes,
        vec![
            PitWrite { port: 0x43, value: 0x34, wide: false },
            PitWrite { port: 0x40, value: 0xA9, wide: true },
            PitWrite { port: 0x40, value: 0x04, wide: true },
        ]
    );
    assert_eq!(writes, kernel::time::init());
    assert_eq!(
        timer,
        Timer { kind: TimerKind::PIT, start: 0, frequency: 1000, supported: true, priority: 255, offset: 0 }
    );
}

#[test]
fn interval_timer_counts_ticks() {
    let mut clock = PitClock { elapsed_ms: 0 };
    pit_tick(&mut clock);
    pit_tick(&mut clock);
    assert_eq!(current_pit_ticks(&clock), 2);
    let eoi = timer_interrupt_handler(&mut clock);
    assert_eq!(current_pit_ticks(&clock), 3);
    assert_eq!(eoi, kernel::ints::pic::send_eoi(0));
    assert_eq!(kernel::time::pit::elapsed_pretty(&clock, 3), "00:00:00.003");
    let mut last = PitClock { elapsed_ms: u64::MAX };
    pit_tick(&mut last);
    assert_eq!(current_pit_ticks(&last), 0);
}

#[test]
fn quantum_is_armed_in_ticks() {
    let a = arm(3_000_000, 0xFF, 1_000_000_000);
    assert_eq!((a.lvt_value, a.ticks), (0xFF, 3_000_000));
    let a = arm(3_000_000, 0x30, 24_000_000);
    assert_eq!((a.lvt_value, a.ticks), (0x30, 72_000));
    assert_eq!(arm(999, 1, 1_000_000).ticks, 0);
    assert_eq!(arm(5_000_000_000, 1, 1_000_000_000).ticks, 705_032_704);
}

#[test]
fn timer_frequency_is_the_mean_of_three_counts() {
    let left = 0xFFFF_FFFFu32;
    assert_eq!(calibrate_timer(&[left - 1000, left - 1000, left - 1000]), 100_000);
    assert_eq!(calibrate_timer(&[left - 10, left - 20, left - 31]), (1000 + 2000 + 3100) / 3);
    assert_eq!(calibrate_timer(&[left, left, left]), 0);
    assert_eq!(calibrate_timer(&[0, 0, 0]), 429_496_729_500);
    assert_eq!(register_address(0xffff_8000_fee0_0000, 0x380), 0xffff_8000_fee0_0380);
}

#[test]
fn controller_registers_are_mapped_through_the_window() {
    let hhdm = 0xffff_8000_0000_0000u64;
    let mut mem = PhysMemory::new(0x10_0000, hhdm, 16);
    let mut kernel = Pagemap::new(&mut mem).unwrap();
    let s = kernel::time::lapic::init(0xfee0_0900, &mut mem, &mut kernel).unwrap();
    assert_eq!(s.phys_mmio, 0xfee0_0000);
    assert_eq!(s.mmio, hhdm + 0xfee0_0000);
    assert_eq!(s.base_value, 0xfee0_0900);
    assert_eq!(s.tpr, 0);
    assert_eq!(s.siv, 0x1FF);
    assert_eq!(kernel.translate(&mem, s.mmio + 0x380), Some(0xfee0_0380));
    let s = kernel::time::lapic::init(0x1_fee0_0100, &mut mem, &mut kernel).unwrap();
    assert_eq!(s.base_value, 0x1_fee0_0900);
    assert_eq!(s.phys_mmio, 0xfee0_0000);
    let mut full = PhysMemory::new(0x10_0000, hhdm, 1);
    let mut alone = Pagemap::new(&mut full).unwrap();
    assert!(kernel::time::lapic::init(0xfee0_0900, &mut full, &mut alone).is_none());
}
