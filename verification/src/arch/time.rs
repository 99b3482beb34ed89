//! The clocks that the kernel knows, in the order in which it prefers
//! them, and elapsed time as text.

use vstd::prelude::*;
use crate::utils::heapless::HeaplessVec;
use crate::utils::text::{is_ascii_bytes, lemma_decimal, padded, pow10, push_decimal, string_of_ascii};
use vstd::string::StringSliceAdditionalSpecFns;
use vstd::std_specs::convert::FromSpecImpl;

pub mod tsc;

verus! {

/// Nanoseconds in a millisecond.
pub const NS_PER_MS: u64 = 1_000_000;

/// Nanoseconds in a second.
pub const NS_PER_S: u64 = 1_000_000_000;

/// The clocks that the kernel knows.
#[derive(Debug, Clone, Copy, PartialEq, Eq, Structural)]
pub enum TimerKind {
    KVM,
    TSC,
    HPET,
    PIT,
}

impl TimerKind {
    /// The name of the clock.
    pub open spec fn name_of(self) -> &'static str {
        match self {
            TimerKind::KVM => "kvm",
            TimerKind::TSC => "tsc",
            TimerKind::HPET => "hpet",
            TimerKind::PIT => "pit",
        }
    }

    /// The clock with the given name; the interval timer for a name that
    /// no clock has.
    pub open spec fn named(name: &str) -> TimerKind {
        if name.spec_bytes() == "kvm".spec_bytes() {
            TimerKind::KVM
        } else if name.spec_bytes() == "tsc".spec_bytes() {
            TimerKind::TSC
        } else if name.spec_bytes() == "hpet".spec_bytes() {
            TimerKind::HPET
        } else {
            TimerKind::PIT
        }
    }

    /// The number of the clock.
    pub open spec fn number_of(self) -> u64 {
        match self {
            TimerKind::KVM => 0,
            TimerKind::TSC => 1,
            TimerKind::HPET => 2,
            TimerKind::PIT => 3,
        }
    }

    /// The clock with the given number; the interval timer for a number
    /// that no clock has.
    pub open spec fn numbered(n: u64) -> TimerKind {
        if n == 0 {
            TimerKind::KVM
        } else if n == 1 {
            TimerKind::TSC
        } else if n == 2 {
            TimerKind::HPET
        } else {
            TimerKind::PIT
        }
    }

    pub fn name(self) -> (r: &'static str)
        ensures
            r == self.name_of(),
    {
        match self {
            TimerKind::KVM => "kvm",
            TimerKind::TSC => "tsc",
            TimerKind::HPET => "hpet",
            TimerKind::PIT => "pit",
        }
    }

    pub fn from_name(name: &str) -> (r: TimerKind)
        ensures
            r == TimerKind::named(name),
    {
        if crate::sched::same_text(name, "kvm") {
            TimerKind::KVM
        } else if crate::sched::same_text(name, "tsc") {
            TimerKind::TSC
        } else if crate::sched::same_text(name, "hpet") {
            TimerKind::HPET
        } else {
            TimerKind::PIT
        }
    }

    pub fn number(self) -> (r: u64)
        ensures
            r == self.number_of(),
    {
        match self {
            TimerKind::KVM => 0,
            TimerKind::TSC => 1,
            TimerKind::HPET => 2,
            TimerKind::PIT => 3,
        }
    }

    pub fn from_number(n: u64) -> (r: TimerKind)
        ensures
            r == TimerKind::numbered(n),
    {
        if n == 0 {
            TimerKind::KVM
        } else if n == 1 {
            TimerKind::TSC
        } else if n == 2 {
            TimerKind::HPET
        } else {
            TimerKind::PIT
        }
    }
}

impl From<TimerKind> for &'static str {
    fn from(val: TimerKind) -> (r: &'static str) {
        val.name()
    }
}

impl FromSpecImpl<TimerKind> for &'static str {
    open spec fn obeys_from_spec() -> bool {
        true
    }

    open spec fn from_spec(val: TimerKind) -> &'static str {
        val.name_of()
    }
}

impl From<&'static str> for TimerKind {
    fn from(val: &'static str) -> (r: TimerKind) {
        TimerKind::from_name(val)
    }
}

impl FromSpecImpl<&'static str> for TimerKind {
    open spec fn obeys_from_spec() -> bool {
        true
    }

    open spec fn from_spec(val: &'static str) -> TimerKind {
        TimerKind::named(val)
    }
}

impl From<TimerKind> for u64 {
    fn from(val: TimerKind) -> (r: u64) {
        val.number()
    }
}

impl FromSpecImpl<TimerKind> for u64 {
    open spec fn obeys_from_spec() -> bool {
        true
    }

    open spec fn from_spec(val: TimerKind) -> u64 {
        val.number_of()
    }
}

impl From<u64> for TimerKind {
    fn from(val: u64) -> (r: TimerKind) {
        TimerKind::from_number(val)
    }
}

impl FromSpecImpl<u64> for TimerKind {
    open spec fn obeys_from_spec() -> bool {
        true
    }

    open spec fn from_spec(val: u64) -> TimerKind {
        TimerKind::numbered(val)
    }
}

/// One clock: what turns a reading of it into nanoseconds.
///
/// A reading of the interval timer is its count of ticks, one a
/// millisecond; a reading of the time stamp counter is the counter; a
/// reading of the KVM clock is the system time that its table gives.
#[derive(Debug, Clone, Copy, PartialEq, Eq, Structural)]
pub struct Timer {
    pub kind: TimerKind,
    /// The reading when the clock was set up.
    pub start: u64,
    /// Ticks a second.
    pub frequency: u64,
    pub supported: bool,
    /// The lower, the more the clock is preferred.
    pub priority: u8,
    /// Nanoseconds to take off what the clock shows.
    pub offset: u64,
}

impl Timer {
    /// The nanoseconds that the reading `raw` stands for.
    pub open spec fn elapsed_of(&self, raw: u64) -> int {
        match self.kind {
            TimerKind::PIT => raw * NS_PER_MS,
            TimerKind::TSC => ((raw - self.start) * NS_PER_S) / (self.frequency as int),
            TimerKind::KVM => raw - self.offset,
            TimerKind::HPET => 0,
        }
    }

    /// The readings that can be turned into nanoseconds: the clock does
    /// not go backwards, the time stamp counter has a frequency, and the
    /// nanoseconds fit in 64 bits.
    pub open spec fn readable(&self, raw: u64) -> bool {
        &&& self.kind == TimerKind::TSC ==> self.frequency != 0 && raw >= self.start
        &&& self.kind == TimerKind::KVM ==> raw >= self.offset
        &&& 0 <= self.elapsed_of(raw) <= u64::MAX
    }

    pub fn new(
        kind: TimerKind,
        start: u64,
        frequency: u64,
        supported: bool,
        priority: u8,
        offset: u64,
    ) -> (t: Timer)
        ensures
            t == (Timer { kind, start, frequency, supported, priority, offset }),
    {
        Timer { kind, start, frequency, supported, priority, offset }
    }

    pub fn kind(&self) -> (r: &TimerKind)
        ensures
            *r == self.kind,
    {
        &self.kind
    }

    pub fn name(&self) -> (r: &'static str)
        ensures
            r == self.kind.name_of(),
    {
        self.kind.name()
    }

    pub fn is_supported(&self) -> (r: bool)
        ensures
            r == self.supported,
    {
        self.supported
    }

    pub fn priority(&self) -> (r: u8)
        ensures
            r == self.priority,
    {
        self.priority
    }

    pub fn get_offset(&self) -> (r: u64)
        ensures
            r == self.offset,
    {
        self.offset
    }

    pub fn set_offset(&mut self, offset: u64)
        ensures
            *final(self) == (Timer { offset, ..*old(self) }),
    {
        self.offset = offset;
    }

    /// The nanoseconds that the reading `raw` stands for.
    pub fn elapsed(&self, raw: u64) -> (r: u64)
        requires
            self.readable(raw),
        ensures
            r == self.elapsed_of(raw),
    {
        match self.kind {
            TimerKind::PIT => raw * NS_PER_MS,
            TimerKind::TSC => {
                let cycles: u128 = (raw - self.start) as u128;
                let ns: u128 = cycles * (NS_PER_S as u128) / (self.frequency as u128);
                ns as u64
            },
            TimerKind::KVM => raw - self.offset,
            TimerKind::HPET => 0,
        }
    }

    /// The nanoseconds that the reading `raw` stands for; `None` for a
    /// reading that cannot be turned into nanoseconds.
    pub fn try_elapsed(&self, raw: u64) -> (r: Option<u64>)
        ensures
            r is Some <==> self.readable(raw),
            r is Some ==> r->0 == self.elapsed_of(raw),
    {
        match self.kind {
            TimerKind::PIT => {
                if raw > u64::MAX / NS_PER_MS {
                    None
                } else {
                    Some(raw * NS_PER_MS)
                }
            },
            TimerKind::TSC => {
                if self.frequency == 0 || raw < self.start {
                    return None;
                }
                let cycles: u128 = (raw - self.start) as u128;
                assert(cycles * 1_000_000_000 <= 0xFFFF_FFFF_FFFF_FFFF * 1_000_000_000);
                let ns: u128 = cycles * 1_000_000_000u128 / (self.frequency as u128);
                if ns > u64::MAX as u128 {
                    None
                } else {
                    Some(ns as u64)
                }
            },
            TimerKind::KVM => {
                if raw < self.offset {
                    None
                } else {
                    Some(raw - self.offset)
                }
            },
            TimerKind::HPET => Some(0),
        }
    }

    /// The time that the reading `raw` stands for, as text; see
    /// `elapsed_time_pretty`.
    pub fn elapsed_pretty(&self, raw: u64, digits: u32) -> (s: String)
        requires
            self.readable(raw),
            digits <= 9,
        ensures
            vstd::utf8::encode_utf8(s@) == pretty_bytes(self.elapsed_of(raw) as u64, digits),
    {
        elapsed_time_pretty(self.elapsed(raw), digits)
    }
}

/// The time `ns` as text: hours, minutes and seconds, each of at least
/// two digits, with `:` between them, then `.` and the part of the
/// second in `digits` digits.
pub open spec fn pretty_bytes(ns: u64, digits: u32) -> Seq<u8> {
    let seconds_total = ns / NS_PER_S;
    let subsecond = (ns % NS_PER_S) as nat / pow10((9 - digits) as nat);
    padded((seconds_total / 3600) as nat, 2) + seq![58u8] + padded(
        ((seconds_total / 60) % 60) as nat,
        2,
    ) + seq![58u8] + padded((seconds_total % 60) as nat, 2) + seq![46u8] + padded(
        subsecond,
        digits as nat,
    )
}

/// Ten to the `k`, for `k` up to nine.
pub fn power_of_ten(k: u32) -> (r: u64)
    requires
        k <= 9,
    ensures
        r == pow10(k as nat),
        r >= 1,
{
    let mut r: u64 = 1;
    let mut i: u32 = 0;
    proof {
        lemma_pow10_grows(0, 9);
    }
    while i < k
        invariant
            i <= k,
            k <= 9,
            r == pow10(i as nat),
            1 <= r <= 1_000_000_000,
        decreases k - i,
    {
        proof {
            lemma_pow10_grows(i as nat + 1, 9);
        }
        r = r * 10;
        i = i + 1;
    }
    r
}

/// Powers of ten grow with the exponent.
pub proof fn lemma_pow10_grows(a: nat, b: nat)
    requires
        a <= b,
    ensures
        1 <= pow10(a) <= pow10(b),
        pow10(9) == 1_000_000_000,
    decreases b,
{
    reveal_with_fuel(pow10, 10);
    if a < b {
        lemma_pow10_grows(a, (b - 1) as nat);
    } else if a > 0 {
        lemma_pow10_grows((a - 1) as nat, (a - 1) as nat);
    }
}

/// The time `ns` as text.
pub fn elapsed_time_pretty(ns: u64, digits: u32) -> (s: String)
    requires
        digits <= 9,
    ensures
        vstd::utf8::encode_utf8(s@) == pretty_bytes(ns, digits),
{
    let subsecond_ns = ns % NS_PER_S;
    let divisor = power_of_ten(9 - digits);
    let subsecond = subsecond_ns / divisor;
    let elapsed_ms = ns / NS_PER_MS;
    let seconds_total = elapsed_ms / 1000;
    let seconds = seconds_total % 60;
    let minutes_total = seconds_total / 60;
    let minutes = minutes_total % 60;
    let hours = minutes_total / 60;
    let mut out: Vec<u8> = Vec::new();
    push_decimal(&mut out, hours, 2);
    out.push(58);
    push_decimal(&mut out, minutes, 2);
    out.push(58);
    push_decimal(&mut out, seconds, 2);
    out.push(46);
    push_decimal(&mut out, subsecond, digits as usize);
    proof {
        assert(seconds_total == ns / NS_PER_S);
        assert(hours == seconds_total / 3600);
        lemma_decimal(hours as nat);
        lemma_decimal(minutes as nat);
        lemma_decimal(seconds as nat);
        lemma_decimal(subsecond as nat);
        assert(out@ =~= pretty_bytes(ns, digits));
        assert(is_ascii_bytes(out@)) by {
            lemma_padded_ascii(hours as nat, 2);
            lemma_padded_ascii(minutes as nat, 2);
            lemma_padded_ascii(seconds as nat, 2);
            lemma_padded_ascii(subsecond as nat, digits as nat);
        }
    }
    string_of_ascii(out)
}

/// Padded digits are digits.
pub proof fn lemma_padded_ascii(n: nat, width: nat)
    ensures
        forall|i: int| 0 <= i < padded(n, width).len() ==> 48 <= #[trigger] padded(n, width)[i] <= 57,
{
    lemma_decimal(n);
}

/// The clocks that were registered, the most preferred first.
pub struct Timers {
    pub list: HeaplessVec<Timer, 10>,
}

/// Whether `list` is in the order of preference.
pub open spec fn in_order(list: Seq<Timer>) -> bool {
    forall|i: int, j: int| 0 <= i < j < list.len() ==> list[i].priority <= list[j].priority
}

/// The place at which a clock of priority `priority` is registered: behind
/// the first `n` clocks as far as they are preferred to it or equal.
pub open spec fn place_of(list: Seq<Timer>, priority: u8, n: int) -> int
    decreases n,
{
    if n <= 0 {
        0
    } else if list[n - 1].priority <= priority {
        n
    } else {
        place_of(list, priority, n - 1)
    }
}

/// What registering `timer` makes of `list`: the clock stands behind those
/// that are preferred to it and those of its own priority that were there
/// before; where ten clocks are registered already, nothing changes.
pub open spec fn registered(list: Seq<Timer>, timer: Timer) -> Seq<Timer> {
    if list.len() >= 10 {
        list
    } else {
        list.insert(place_of(list, timer.priority, list.len() as int), timer)
    }
}

/// Whether clock `i` is the first of `list` that is supported.
pub open spec fn first_supported(list: Seq<Timer>, i: int) -> bool {
    &&& 0 <= i < list.len()
    &&& list[i].supported
    &&& forall|j: int| 0 <= j < i ==> !(#[trigger] list[j]).supported
}

/// Whether clock `i` is the first of `list` of the kind `kind`.
pub open spec fn first_of_kind(list: Seq<Timer>, i: int, kind: TimerKind) -> bool {
    &&& 0 <= i < list.len()
    &&& list[i].kind == kind
    &&& forall|j: int| 0 <= j < i ==> (#[trigger] list[j]).kind != kind
}

/// Whether clock `i` is the first of `list` whose kind has the name that
/// the bytes `name` spell.
pub open spec fn first_named(list: Seq<Timer>, i: int, name: Seq<u8>) -> bool {
    &&& 0 <= i < list.len()
    &&& list[i].kind.name_of().spec_bytes() == name
    &&& forall|j: int| 0 <= j < i ==> (#[trigger] list[j]).kind.name_of().spec_bytes() != name
}

impl Timers {
    /// Validity: at most ten clocks, in the order of preference.
    pub open spec fn wf(&self) -> bool {
        self.list.wf() && in_order(self.list@)
    }

    /// The clock that is preferred: the first that is supported.
    pub open spec fn preferred(&self) -> Option<Timer> {
        if exists|i: int| first_supported(self.list@, i) {
            Some(self.list@[choose|i: int| first_supported(self.list@, i)])
        } else {
            None
        }
    }

    /// No clock yet.
    pub fn new() -> (t: Timers)
        ensures
            t.wf(),
            t.list@.len() == 0,
    {
        Timers { list: HeaplessVec::new() }
    }
}

/// Registers `timer`.
pub fn register_timer(timers: &mut Timers, timer: Timer)
    requires
        old(timers).wf(),
    ensures
        final(timers).wf(),
        final(timers).list@ == registered(old(timers).list@, timer),
{
    let n = timers.list.len();
    let mut at: usize = n;
    let mut found = false;
    while at > 0 && !found
        invariant
            at <= n,
            n == timers.list@.len(),
            timers.wf(),
            *timers == *old(timers),
            place_of(timers.list@, timer.priority, n as int) == place_of(
                timers.list@,
                timer.priority,
                at as int,
            ),
            forall|j: int| at <= j < n ==> timers.list@[j].priority > timer.priority,
            found ==> at > 0 && timers.list@[at - 1].priority <= timer.priority,
        decreases
                at * 2 + if found {
                    0int
                } else {
                    1int
                },
    {
        let p = match timers.list.get(at - 1) {
            Some(t) => t.priority,
            None => 0,
        };
        if p <= timer.priority {
            found = true;
        } else {
            at = at - 1;
        }
    }
    proof {
        assert(place_of(timers.list@, timer.priority, at as int) == at);
        assert forall|j: int| 0 <= j < at implies timers.list@[j].priority <= timer.priority by {
            if j < at - 1 {
                assert(timers.list@[j].priority <= timers.list@[at - 1].priority);
            }
        }
    }
    let r = timers.list.insert(at, timer);
}

/// The clocks, the most preferred first.
pub fn get_timers(timers: &Timers) -> (r: &HeaplessVec<Timer, 10>)
    ensures
        *r == timers.list,
{
    &timers.list
}

/// The first clock of the given kind. One has to be registered: there is
/// no clock to give in its place.
pub fn get_timer<'a>(timers: &'a Timers, kind: &TimerKind) -> (r: &'a Timer)
    requires
        exists|i: int| 0 <= i < timers.list@.len() && (#[trigger] timers.list@[i]).kind == *kind,
    ensures
        exists|i: int| #[trigger] first_of_kind(timers.list@, i, *kind) && *r == timers.list@[i],
{
    let n = timers.list.len();
    let mut i: usize = 0;
    loop
        invariant
            i < n,
            n == timers.list@.len(),
            exists|k: int| 0 <= k < timers.list@.len() && (#[trigger] timers.list@[k]).kind == *kind,
            forall|j: int| 0 <= j < i ==> (#[trigger] timers.list@[j]).kind != *kind,
        decreases n - i,
    {
        match timers.list.get(i) {
            Some(t) => {
                if t.kind.number() == kind.number() {
                    assert(first_of_kind(timers.list@, i as int, *kind));
                    return t;
                }
            },
            None => {},
        }
        proof {
            let k = choose|k: int|
                0 <= k < timers.list@.len() && (#[trigger] timers.list@[k]).kind == *kind;
            assert(k > i);
        }
        i = i + 1;
    }
}

/// The first clock whose kind has the given name. One has to be
/// registered: there is no clock to give in its place.
pub fn get_timer_by_name<'a>(timers: &'a Timers, name: &str) -> (r: &'a Timer)
    requires
        exists|i: int|
            0 <= i < timers.list@.len() && (#[trigger] timers.list@[i]).kind.name_of().spec_bytes()
                == name.spec_bytes(),
    ensures
        exists|i: int|
            #[trigger] first_named(timers.list@, i, name.spec_bytes()) && *r == timers.list@[i],
{
    let n = timers.list.len();
    let mut i: usize = 0;
    loop
        invariant
            i < n,
            n == timers.list@.len(),
            exists|k: int|
                0 <= k < timers.list@.len() && (
                #[trigger] timers.list@[k]).kind.name_of().spec_bytes() == name.spec_bytes(),
            forall|j: int|
                0 <= j < i ==> (#[trigger] timers.list@[j]).kind.name_of().spec_bytes()
                    != name.spec_bytes(),
        decreases n - i,
    {
        match timers.list.get(i) {
            Some(t) => {
                if crate::sched::same_text(t.name(), name) {
                    assert(first_named(timers.list@, i as int, name.spec_bytes()));
                    return t;
                }
            },
            None => {},
        }
        proof {
            let k = choose|k: int|
                0 <= k < timers.list@.len() && (
                #[trigger] timers.list@[k]).kind.name_of().spec_bytes() == name.spec_bytes();
            assert(k > i);
        }
        i = i + 1;
    }
}

/// The clock that is preferred: the first that is supported.
pub fn preferred_timer(timers: &Timers) -> (r: Option<&Timer>)
    ensures
        r is Some <==> timers.preferred() is Some,
        r is Some ==> *r->0 == timers.preferred()->0,
{
    let n = timers.list.len();
    let mut i: usize = 0;
    while i < n
        invariant
            i <= n,
            n == timers.list@.len(),
            forall|j: int| 0 <= j < i ==> !timers.list@[j].supported,
        decreases n - i,
    {
        match timers.list.get(i) {
            Some(t) => {
                if t.supported {
                    proof {
                        assert(first_supported(timers.list@, i as int));
                        let c = choose|c: int| first_supported(timers.list@, c);
                        assert(c == i) by {
                            if c < i {
                                assert(!timers.list@[c].supported);
                            }
                            if i < c {
                                assert(!timers.list@[i as int].supported);
                            }
                        }
                    }
                    return Some(t);
                }
            },
            None => {},
        }
        i = i + 1;
    }
    proof {
        assert forall|c: int| !first_supported(timers.list@, c) by {
            if 0 <= c < n {
                assert(!timers.list@[c].supported);
            }
        }
    }
    None
}

/// The nanoseconds that the reading `raw` of the preferred clock stands
/// for; zero where no clock is supported.
pub fn preferred_timer_ns(timers: &Timers, raw: u64) -> (r: u64)
    requires
        timers.preferred() is Some ==> timers.preferred()->0.readable(raw),
    ensures
        r == match timers.preferred() {
            Some(t) => t.elapsed_of(raw),
            None => 0,
        },
{
    match preferred_timer(timers) {
        Some(t) => t.elapsed(raw),
        None => 0,
    }
}

/// `preferred_timer_ns` in milliseconds.
pub fn preferred_timer_ms(timers: &Timers, raw: u64) -> (r: u64)
    requires
        timers.preferred() is Some ==> timers.preferred()->0.readable(raw),
    ensures
        r == match timers.preferred() {
            Some(t) => t.elapsed_of(raw) / (NS_PER_MS as int),
            None => 0,
        },
{
    preferred_timer_ns(timers, raw) / NS_PER_MS
}

/// `preferred_timer_ns` as text.
pub fn preferred_timer_pretty(timers: &Timers, raw: u64, digits: u32) -> (s: String)
    requires
        timers.preferred() is Some ==> timers.preferred()->0.readable(raw),
        digits <= 9,
    ensures
        vstd::utf8::encode_utf8(s@) == pretty_bytes(
            match timers.preferred() {
                Some(t) => t.elapsed_of(raw) as u64,
                None => 0,
            },
            digits,
        ),
{
    elapsed_time_pretty(preferred_timer_ns(timers, raw), digits)
}

/// Whether a wait of `ns` nanoseconds that began when the clock showed
/// `start` is over when it shows `now`.
pub fn busywait_ns(start: u64, now: u64, ns: u64) -> (over: bool)
    requires
        start <= now,
    ensures
        over == (now - start >= ns),
{
    now - start >= ns
}

/// Whether a wait of `ms` milliseconds that began when the clock showed
/// `start` nanoseconds is over when it shows `now`.
pub fn busywait_ms(start: u64, now: u64, ms: u64) -> (over: bool)
    requires
        start <= now,
    ensures
        over == (now - start >= ms * NS_PER_MS),
{
    if ms > u64::MAX / NS_PER_MS {
        false
    } else {
        busywait_ns(start, now, ms * NS_PER_MS)
    }
}

/// The clocks at boot: the interval timer, the KVM clock where there is
/// one, and the time stamp counter, registered in that order.
pub fn init(pit: Timer, kvm: Option<Timer>, tsc: Timer) -> (timers: Timers)
    ensures
        timers.wf(),
        timers.list@ == registered(
            match kvm {
                Some(k) => registered(registered(Seq::empty(), pit), k),
                None => registered(Seq::empty(), pit),
            },
            tsc,
        ),
{
    let mut timers = Timers::new();
    assert(timers.list@ =~= Seq::empty());
    register_timer(&mut timers, pit);
    match kvm {
        Some(k) => {
            register_timer(&mut timers, k);
        },
        None => {},
    }
    register_timer(&mut timers, tsc);
    timers
}

} // verus!
