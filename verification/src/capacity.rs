//! How many particles the machine can hold, and the choice that the user makes of that.
use vstd::prelude::*;
use crate::material::raise_channel;
use crate::single::{num, Single};

verus! {

/// The number of particles to aim for.
pub const DESIRED_PARTICLES: u32 = 25_000_000;

/// The most particles that are computed without a graphics card.
pub const CPU_PARTICLES: u32 = 65_536;

/// Bytes of a particle in a buffer.
pub const RECORD_SIZE: u32 = 64;

/// Where the physics are computed.
#[derive(Clone, Copy, Debug, PartialEq, Eq, Structural)]
pub enum ComputeMode {
    Gpu,
    Cpu,
}

/// The smaller of two counts.
pub open spec fn smaller(a: int, b: int) -> int {
    if a <= b {
        a
    } else {
        b
    }
}

/// How many particles there can be, given the largest buffer.
pub open spec fn limit_of(max_buffer: u32, mode: ComputeMode) -> int {
    let fitting = smaller(DESIRED_PARTICLES as int, max_buffer as int / RECORD_SIZE as int);
    match mode {
        ComputeMode::Gpu => fitting,
        ComputeMode::Cpu => smaller(fitting, CPU_PARTICLES as int),
    }
}

/// How many particles there can be, given the largest buffer.
pub fn particle_limit(max_buffer: u32, mode: ComputeMode) -> (r: u32)
    ensures
        r == limit_of(max_buffer, mode),
{
    let fitting: u32 = max_buffer / RECORD_SIZE;
    let mut r: u32 = if DESIRED_PARTICLES <= fitting {
        DESIRED_PARTICLES
    } else {
        fitting
    };
    if mode == ComputeMode::Cpu && CPU_PARTICLES < r {
        r = CPU_PARTICLES;
    }
    r
}

/// A count, rounded down to the largest unit that it reaches.
#[derive(Clone, Copy, Debug, PartialEq, Eq)]
pub enum CountLabel {
    Millions(u32),
    Thousands(u32),
    Ones(u32),
}

/// A count as it is shown.
pub fn count_label(n: u32) -> (r: CountLabel)
    ensures
        r == if n >= 1_000_000 {
            CountLabel::Millions((n / 1_000_000) as u32)
        } else if n >= 1_000 {
            CountLabel::Thousands((n / 1_000) as u32)
        } else {
            CountLabel::Ones(n)
        },
{
    if n >= 1_000_000 {
        CountLabel::Millions(n / 1_000_000)
    } else if n >= 1_000 {
        CountLabel::Thousands(n / 1_000)
    } else {
        CountLabel::Ones(n)
    }
}

/// An amount of memory as it is shown.
#[derive(Clone, Copy, Debug, PartialEq, Eq)]
pub enum MemoryLabel {
    Gigabytes(u64),
    Megabytes(u64),
    /// The largest buffer, in megabytes, where the memory is not known.
    Buffer(u64),
}

/// White space, as Unicode has it.
pub open spec fn blank(c: char) -> bool {
    let u = c as u32;
    9 <= u <= 13 || u == 0x20 || u == 0x85 || u == 0xa0 || u == 0x1680 || 0x2000 <= u <= 0x200a || u
        == 0x2028 || u == 0x2029 || u == 0x202f || u == 0x205f || u == 0x3000
}

/// A decimal digit.
pub open spec fn digit(c: char) -> bool {
    '0' <= c <= '9'
}

/// What is left of a text from `a` to `b` when the white space at both ends is cut off.
pub open spec fn core_of(text: Seq<char>, a: int, b: int) -> bool {
    &&& 0 <= a <= b <= text.len()
    &&& forall|j: int| 0 <= j < a ==> blank(#[trigger] text[j])
    &&& forall|j: int| b <= j < text.len() ==> blank(#[trigger] text[j])
    &&& a < b ==> !blank(text[a]) && !blank(text[b - 1])
}

/// The number that digits stand for.
pub open spec fn value_of(digits: Seq<char>) -> int
    decreases digits.len(),
{
    if digits.len() == 0 {
        0
    } else {
        10 * value_of(digits.drop_last()) + (digits.last() as int - '0' as int)
    }
}

/// The digits of a number, which may have a plus before them.
pub open spec fn digits_of(core: Seq<char>) -> Seq<char> {
    if core.len() > 0 && core[0] == '+' {
        core.subrange(1, core.len() as int)
    } else {
        core
    }
}

/// The number of bytes that a text names: 0 where it is no number, or one that is too large.
pub open spec fn bytes_named(core: Seq<char>) -> int {
    let digits = digits_of(core);
    if digits.len() > 0 && (forall|j: int| 0 <= j < digits.len() ==> digit(#[trigger] digits[j]))
        && value_of(digits) <= u64::MAX {
        value_of(digits)
    } else {
        0
    }
}

/// Whether a character is white space.
fn is_blank(c: char) -> (r: bool)
    ensures
        r == blank(c),
{
    let u: u32 = c as u32;
    (9 <= u && u <= 13) || u == 0x20 || u == 0x85 || u == 0xa0 || u == 0x1680 || (0x2000 <= u && u
        <= 0x200a) || u == 0x2028 || u == 0x2029 || u == 0x202f || u == 0x205f || u == 0x3000
}

/// More digits do not make a number smaller.
proof fn lemma_value_grows(digits: Seq<char>, k: int)
    requires
        0 <= k <= digits.len(),
        forall|j: int| 0 <= j < digits.len() ==> digit(#[trigger] digits[j]),
    ensures
        0 <= value_of(digits.subrange(0, k)) <= value_of(digits),
    decreases digits.len(),
{
    if k == digits.len() {
        assert(digits.subrange(0, k) =~= digits);
        if k > 0 {
            let front = digits.drop_last();
            assert forall|j: int| 0 <= j < front.len() implies digit(#[trigger] front[j]) by {
                assert(front[j] == digits[j]);
            }
            lemma_value_grows(front, front.len() as int);
            assert(front.subrange(0, front.len() as int) =~= front);
            assert(digit(digits[k - 1]));
        }
    } else {
        let front = digits.drop_last();
        assert forall|j: int| 0 <= j < front.len() implies digit(#[trigger] front[j]) by {
            assert(front[j] == digits[j]);
        }
        lemma_value_grows(front, k);
        assert(front.subrange(0, k) =~= digits.subrange(0, k));
        assert(digit(digits[digits.len() - 1]));
    }
}

/// The number that the digits from `a` to `b` stand for; 0 where there are none, where something
/// else stands there, or where it is too large.
fn parse_digits(text: &Vec<char>, a: usize, b: usize) -> (r: u64)
    requires
        a <= b <= text@.len(),
    ensures
        ({
            let digits = text@.subrange(a as int, b as int);
            r == if digits.len() > 0 && (forall|j: int|
                0 <= j < digits.len() ==> digit(#[trigger] digits[j])) && value_of(digits)
                <= u64::MAX {
                value_of(digits)
            } else {
                0
            }
        }),
{
    let ghost digits = text@.subrange(a as int, b as int);
    let mut sum: u64 = 0;
    let mut k: usize = a;
    while k < b
        invariant
            a <= k <= b <= text@.len(),
            digits == text@.subrange(a as int, b as int),
            forall|j: int| 0 <= j < k - a ==> digit(#[trigger] digits[j]),
            sum == value_of(digits.subrange(0, k - a)),
        decreases b - k,
    {
        let c: char = text[k];
        assert(c == digits[k - a]);
        if !('0' <= c && c <= '9') {
            assert(!digit(digits[k - a]));
            return 0;
        }
        let d: u64 = (c as u32 - '0' as u32) as u64;
        let ghost longer = digits.subrange(0, k - a + 1);
        proof {
            assert(longer.drop_last() =~= digits.subrange(0, k - a));
            assert(longer.last() == c);
            assert(value_of(longer) == 10 * sum + d);
        }
        if sum > (u64::MAX - d) / 10 {
            proof {
                if forall|j: int| 0 <= j < digits.len() ==> digit(#[trigger] digits[j]) {
                    lemma_value_grows(digits, k - a + 1);
                }
            }
            return 0;
        }
        sum = sum * 10 + d;
        k += 1;
    }
    assert(digits.subrange(0, b - a) =~= digits);
    sum
}

/// The memory that a reply names: its text without the white space at both ends, read as a number
/// of bytes.
pub fn memory_size(reply: &Vec<char>) -> (r: u64)
    ensures
        exists|a: int, b: int| #[trigger]
            core_of(reply@, a, b) && r == bytes_named(reply@.subrange(a, b)),
{
    let mut a: usize = 0;
    while a < reply.len() && is_blank(reply[a])
        invariant
            a <= reply@.len(),
            forall|j: int| 0 <= j < a ==> blank(#[trigger] reply@[j]),
        decreases reply@.len() - a,
    {
        a += 1;
    }
    let mut b: usize = reply.len();
    while b > a && is_blank(reply[b - 1])
        invariant
            a <= b <= reply@.len(),
            forall|j: int| b <= j < reply@.len() ==> blank(#[trigger] reply@[j]),
        decreases b,
    {
        b -= 1;
    }
    assert(core_of(reply@, a as int, b as int));
    let ghost core = reply@.subrange(a as int, b as int);
    if a < b && reply[a] == '+' {
        assert(core[0] == '+');
        assert(digits_of(core) =~= reply@.subrange(a + 1, b as int));
        parse_digits(reply, a + 1, b)
    } else {
        assert(a < b ==> core[0] == reply@[a as int]);
        assert(digits_of(core) =~= core);
        parse_digits(reply, a, b)
    }
}

/// A reply names one number, however its white space is told off.
pub proof fn law_reply_names_one_number(text: Seq<char>, a: int, b: int, c: int, d: int)
    requires
        core_of(text, a, b),
        core_of(text, c, d),
    ensures
        bytes_named(text.subrange(a, b)) == bytes_named(text.subrange(c, d)),
{
    if a < b {
        assert(!blank(text[a]) && !blank(text[b - 1]));
        if c == d {
            assert(blank(text[a]));
        }
        assert(!blank(text[c]) && !blank(text[d - 1]));
        assert(a == c && b == d);
    } else if c < d {
        assert(!blank(text[c]));
        assert(blank(text[c]));
    }
}

/// The memory of the graphics card, as it is shown; 0 means that it is not known.
pub fn memory_label(memory: u64, max_buffer: u64) -> (r: MemoryLabel)
    ensures
        r == if memory == 0 {
            MemoryLabel::Buffer((max_buffer / 0x10_0000) as u64)
        } else if memory / 0x10_0000 >= 1024 {
            MemoryLabel::Gigabytes((memory / 0x4000_0000) as u64)
        } else {
            MemoryLabel::Megabytes((memory / 0x10_0000) as u64)
        },
{
    if memory > 0 {
        let megabytes: u64 = memory / 1024 / 1024;
        if megabytes >= 1024 {
            MemoryLabel::Gigabytes(megabytes / 1024)
        } else {
            MemoryLabel::Megabytes(megabytes)
        }
    } else {
        MemoryLabel::Buffer(max_buffer / 1024 / 1024)
    }
}

/// A capacity that can be chosen: the count, the side of its square and its colour.
#[derive(Clone, Copy, Debug, PartialEq, Eq)]
pub struct Preset {
    pub count: u32,
    pub side: Single,
    pub color: [u8; 3],
}

/// How many capacities can be chosen.
pub const PRESETS: usize = 9;

/// The capacities on offer.
pub open spec fn preset_counts() -> Seq<u32> {
    seq![
        1_000u32,
        4_000u32,
        32_000u32,
        128_000u32,
        256_000u32,
        512_000u32,
        1_000_000u32,
        2_000_000u32,
        4_000_000u32,
    ]
}

/// The sides of their squares: 6, 8, 12, 20, 25, 30, 40, 50 and 60.
pub open spec fn preset_sides() -> Seq<u32> {
    seq![
        0x40c0_0000u32,
        0x4100_0000u32,
        0x4140_0000u32,
        0x41a0_0000u32,
        0x41c8_0000u32,
        0x41f0_0000u32,
        0x4220_0000u32,
        0x4248_0000u32,
        0x4270_0000u32,
    ]
}

/// Their colours: white, white, cyan, blue, green, yellow, orange, red and purple.
pub open spec fn preset_colors() -> Seq<Seq<u8>> {
    seq![
        seq![255u8, 255u8, 255u8],
        seq![255u8, 255u8, 255u8],
        seq![0u8, 220u8, 220u8],
        seq![60u8, 120u8, 255u8],
        seq![60u8, 200u8, 80u8],
        seq![240u8, 200u8, 40u8],
        seq![240u8, 140u8, 30u8],
        seq![220u8, 50u8, 50u8],
        seq![180u8, 60u8, 220u8],
    ]
}

/// One of the capacities on offer.
pub fn preset(i: usize) -> (r: Preset)
    requires
        i < PRESETS,
    ensures
        r.count == preset_counts()[i as int],
        r.side == num(preset_sides()[i as int]),
        r.color@ == preset_colors()[i as int],
{
    let (count, side, color): (u32, u32, [u8; 3]) = if i == 0 {
        (1_000, 0x40c0_0000, [255u8, 255u8, 255u8])
    } else if i == 1 {
        (4_000, 0x4100_0000, [255u8, 255u8, 255u8])
    } else if i == 2 {
        (32_000, 0x4140_0000, [0u8, 220u8, 220u8])
    } else if i == 3 {
        (128_000, 0x41a0_0000, [60u8, 120u8, 255u8])
    } else if i == 4 {
        (256_000, 0x41c8_0000, [60u8, 200u8, 80u8])
    } else if i == 5 {
        (512_000, 0x41f0_0000, [240u8, 200u8, 40u8])
    } else if i == 6 {
        (1_000_000, 0x4220_0000, [240u8, 140u8, 30u8])
    } else if i == 7 {
        (2_000_000, 0x4248_0000, [220u8, 50u8, 50u8])
    } else {
        (4_000_000, 0x4270_0000, [180u8, 60u8, 220u8])
    };
    assert(color@ =~= preset_colors()[i as int]);
    Preset { count, side: Single::from_bits(side), color }
}

impl Preset {
    /// Whether the machine can hold as many particles.
    pub fn is_available(&self, limit: u32) -> (r: bool)
        ensures
            r == (self.count <= limit),
    {
        self.count <= limit
    }

    /// The colour of the square: grey where it cannot be chosen, brighter where it is pointed at.
    pub fn shown_color(&self, limit: u32, hovered: bool) -> (r: [u8; 3])
        ensures
            forall|c: int|
                0 <= c < 3 ==> #[trigger] r@[c] == if self.count > limit {
                    50
                } else if hovered {
                    smaller(self.color@[c] + 30, 255)
                } else {
                    self.color@[c] as int
                },
    {
        if !self.is_available(limit) {
            [50u8, 50u8, 50u8]
        } else if hovered {
            [
                raise_channel(self.color[0], 30),
                raise_channel(self.color[1], 30),
                raise_channel(self.color[2], 30),
            ]
        } else {
            self.color
        }
    }
}

/// The screen that a session starts with.
#[derive(Clone, Copy, Debug, PartialEq, Eq, Structural)]
pub enum Splash {
    /// A capacity is to be chosen.
    Choosing,
    /// One was chosen, and the screen fades.
    Fading,
    /// The simulation runs.
    Gone,
}

/// The first screen and the capacity chosen there.
pub struct Session {
    pub splash: Splash,
    pub capacity: u32,
    pub limit: u32,
}

impl Session {
    /// The capacity does not go beyond what the machine can hold.
    pub open spec fn wf(self) -> bool {
        self.capacity <= self.limit
    }

    /// A session that starts with the first screen, at full capacity.
    pub fn new(limit: u32) -> (r: Self)
        ensures
            r.wf(),
            r.splash == Splash::Choosing,
            r.capacity == limit,
            r.limit == limit,
    {
        Session { splash: Splash::Choosing, capacity: limit, limit }
    }

    /// A capacity is clicked. It is taken where the screen still asks for one and the machine can
    /// hold it; the result tells.
    pub fn pick(&mut self, preset: &Preset) -> (r: bool)
        requires
            old(self).wf(),
        ensures
            final(self).wf(),
            final(self).limit == old(self).limit,
            r == (old(self).splash == Splash::Choosing && preset.count <= old(self).limit),
            r ==> final(self).splash == Splash::Fading && final(self).capacity == preset.count,
            !r ==> *final(self) == *old(self),
    {
        if self.splash == Splash::Choosing && preset.is_available(self.limit) {
            self.capacity = preset.count;
            self.splash = Splash::Fading;
            true
        } else {
            false
        }
    }

    /// Time passes while the screen fades; it is gone when its time is over. The result tells
    /// whether it has just gone.
    pub fn fade(&mut self, elapsed: Single, duration: Single) -> (r: bool)
        requires
            old(self).wf(),
        ensures
            final(self).wf(),
            final(self).limit == old(self).limit,
            final(self).capacity == old(self).capacity,
            r == (old(self).splash == Splash::Fading && duration.at_most(elapsed)),
            final(self).splash == if r {
                Splash::Gone
            } else {
                old(self).splash
            },
    {
        if self.splash == Splash::Fading && elapsed.ge(duration) {
            self.splash = Splash::Gone;
            true
        } else {
            false
        }
    }
}

/// What the limit allows fits in the largest buffer.
pub proof fn law_limit_fits_the_buffer(max_buffer: u32, mode: ComputeMode)
    ensures
        limit_of(max_buffer, mode) * RECORD_SIZE <= max_buffer,
        limit_of(max_buffer, mode) <= DESIRED_PARTICLES,
        limit_of(max_buffer, mode) <= i32::MAX,
{
}

/// A larger buffer never lowers the limit, and computing without a graphics card never raises it.
pub proof fn law_limit_grows_with_the_buffer(a: u32, b: u32, mode: ComputeMode)
    requires
        a <= b,
    ensures
        limit_of(a, mode) <= limit_of(b, mode),
        limit_of(a, ComputeMode::Cpu) <= limit_of(a, ComputeMode::Gpu),
{
}

/// The capacities on offer grow from one to the next.
pub proof fn law_presets_ascend(i: int, j: int)
    requires
        0 <= i < j < PRESETS,
    ensures
        preset_counts()[i] < preset_counts()[j],
{
}

/// As many particles fit as records of 64 bytes go into the largest buffer, up to twenty-five
/// millions, and up to 65536 without a graphics card.
pub proof fn law_limit_is_the_least_of_its_bounds(max_buffer: u32, gpu: u32, cpu: u32)
    requires
        call_ensures(particle_limit, (max_buffer, ComputeMode::Gpu), gpu),
        call_ensures(particle_limit, (max_buffer, ComputeMode::Cpu), cpu),
    ensures
        64 * gpu <= max_buffer,
        gpu <= 25_000_000,
        gpu == 25_000_000 || 64 * (gpu + 1) > max_buffer,
        cpu <= gpu,
        cpu <= 65_536,
        cpu == gpu || cpu == 65_536,
{
}

/// A count is shown in the largest of millions, thousands and ones that it reaches, rounded down.
pub proof fn law_counts_are_rounded_down(n: u32, r: CountLabel)
    requires
        call_ensures(count_label, (n,), r),
    ensures
        r is Millions <==> n >= 1_000_000,
        r is Ones <==> n < 1_000,
        r matches CountLabel::Millions(k) ==> 1_000_000 * k <= n < 1_000_000 * (k + 1),
        r matches CountLabel::Thousands(k) ==> 1_000 * k <= n < 1_000 * (k + 1),
        r matches CountLabel::Ones(k) ==> k == n,
{
}

/// Memory is shown in gigabytes from one on, in megabytes below, rounded down; where none is known,
/// the largest buffer is shown in megabytes.
pub proof fn law_memory_is_rounded_down(memory: u64, max_buffer: u64, r: MemoryLabel)
    requires
        call_ensures(memory_label, (memory, max_buffer), r),
    ensures
        r is Buffer <==> memory == 0,
        r is Gigabytes <==> memory >= 0x4000_0000,
        r matches MemoryLabel::Gigabytes(k) ==> 0x4000_0000 * k <= memory < 0x4000_0000 * (k + 1),
        r matches MemoryLabel::Megabytes(k) ==> 0x10_0000 * k <= memory < 0x10_0000 * (k + 1),
        r matches MemoryLabel::Buffer(k) ==> 0x10_0000 * k <= max_buffer < 0x10_0000 * (k + 1),
{
}

/// The capacities on offer: their counts, sides and colours.
pub proof fn law_nine_capacities_are_on_offer(i: usize, r: Preset)
    requires
        i < 9,
        call_ensures(preset, (i,), r),
    ensures
        i == 0 ==> r.count == 1_000 && r.side.bits == 0x40c0_0000 && r.color@ == seq![
            255u8,
            255u8,
            255u8,
        ],
        i == 1 ==> r.count == 4_000 && r.side.bits == 0x4100_0000 && r.color@ == seq![
            255u8,
            255u8,
            255u8,
        ],
        i == 2 ==> r.count == 32_000 && r.side.bits == 0x4140_0000 && r.color@ == seq![
            0u8,
            220u8,
            220u8,
        ],
        i == 3 ==> r.count == 128_000 && r.side.bits == 0x41a0_0000 && r.color@ == seq![
            60u8,
            120u8,
            255u8,
        ],
        i == 4 ==> r.count == 256_000 && r.side.bits == 0x41c8_0000 && r.color@ == seq![
            60u8,
            200u8,
            80u8,
        ],
        i == 5 ==> r.count == 512_000 && r.side.bits == 0x41f0_0000 && r.color@ == seq![
            240u8,
            200u8,
            40u8,
        ],
        i == 6 ==> r.count == 1_000_000 && r.side.bits == 0x4220_0000 && r.color@ == seq![
            240u8,
            140u8,
            30u8,
        ],
        i == 7 ==> r.count == 2_000_000 && r.side.bits == 0x4248_0000 && r.color@ == seq![
            220u8,
            50u8,
            50u8,
        ],
        i == 8 ==> r.count == 4_000_000 && r.side.bits == 0x4270_0000 && r.color@ == seq![
            180u8,
            60u8,
            220u8,
        ],
{
}

/// A capacity can be chosen up to the limit; beyond it, its square is grey; one that is pointed at is
/// brighter.
pub proof fn law_squares_show_what_can_be_chosen(
    p: Preset,
    limit: u32,
    hovered: bool,
    available: bool,
    color: [u8; 3],
    c: int,
)
    requires
        call_ensures(Preset::is_available, (&p, limit), available),
        call_ensures(Preset::shown_color, (&p, limit, hovered), color),
        0 <= c < 3,
    ensures
        available == (p.count <= limit),
        !available ==> color@[c] == 50,
        available && !hovered ==> color@[c] == p.color@[c],
        available && hovered && p.color@[c] <= 225 ==> color@[c] == p.color@[c] + 30,
        available && hovered && p.color@[c] > 225 ==> color@[c] == 255,
{
    let _ = color@[c];
}

/// A session asks for a capacity, at first the whole; takes one that fits, once; fades for its time;
/// and then runs. Nothing else changes.
pub proof fn law_session_runs_its_course(
    limit: u32,
    start: Session,
    s: &mut Session,
    p: Preset,
    picked: bool,
    f: &mut Session,
    elapsed: Single,
    duration: Single,
    gone: bool,
)
    requires
        call_ensures(Session::new, (limit,), start),
        old(s).wf(),
        call_ensures(Session::pick, (s, &p), picked),
        old(f).wf(),
        call_ensures(Session::fade, (f, elapsed, duration), gone),
    ensures
        start.splash is Choosing && start.capacity == limit && start.limit == limit,
        picked == (old(s).splash is Choosing && p.count <= old(s).limit),
        picked ==> final(s).splash is Fading && final(s).capacity == p.count,
        !picked ==> *final(s) == *old(s),
        final(s).limit == old(s).limit,
        gone == (old(f).splash is Fading && duration.at_most(elapsed)),
        gone ==> final(f).splash is Gone,
        !gone ==> final(f).splash == old(f).splash,
        final(f).capacity == old(f).capacity,
        final(f).limit == old(f).limit,
{
}

/// Text that neither begins nor ends with white space is its own core.
proof fn lemma_whole_core(text: Seq<char>, a: int, b: int)
    requires
        core_of(text, a, b),
        text.len() > 0,
        !blank(text[0]),
        !blank(text[text.len() - 1]),
    ensures
        a == 0,
        b == text.len(),
{
    if a > 0 {
        assert(blank(text[0]));
    }
    if b < text.len() {
        assert(blank(text[text.len() - 1]));
    }
}

/// White space around a reply makes no difference.
pub proof fn law_white_space_is_ignored(reply: Vec<char>, inner: Vec<char>, a: int, b: int, r: u64, s: u64)
    requires
        0 <= a <= b <= reply@.len(),
        forall|j: int| 0 <= j < a ==> blank(#[trigger] reply@[j]),
        forall|j: int| b <= j < reply@.len() ==> blank(#[trigger] reply@[j]),
        inner@ == reply@.subrange(a, b),
        call_ensures(memory_size, (&reply,), r),
        call_ensures(memory_size, (&inner,), s),
    ensures
        r == s,
{
    let (c, d) = choose|c: int, d: int| #[trigger]
        core_of(inner@, c, d) && s == bytes_named(inner@.subrange(c, d));
    let (e, f) = choose|e: int, f: int| #[trigger]
        core_of(reply@, e, f) && r == bytes_named(reply@.subrange(e, f));
    assert(core_of(reply@, a + c, a + d)) by {
        assert forall|j: int| 0 <= j < a + c implies blank(#[trigger] reply@[j]) by {
            if j >= a {
                assert(inner@[j - a] == reply@[j]);
            }
        }
        assert forall|j: int| a + d <= j < reply@.len() implies blank(#[trigger] reply@[j]) by {
            if j < b {
                assert(inner@[j - a] == reply@[j]);
            }
        }
        if c < d {
            assert(inner@[c] == reply@[a + c]);
            assert(inner@[d - 1] == reply@[a + d - 1]);
        }
    }
    assert(reply@.subrange(a + c, a + d) =~= inner@.subrange(c, d));
    law_reply_names_one_number(reply@, a + c, a + d, e, f);
}

/// White space is what Unicode calls so: the five controls from tab on, the space, and the wider
/// ones. No letter, digit or sign is.
pub proof fn law_white_space_of_unicode(c: char)
    ensures
        blank(c) <==> c == ' ' || '\t' <= c <= '\r' || c == '\u{85}' || c == '\u{a0}' || c
            == '\u{1680}' || '\u{2000}' <= c <= '\u{200a}' || c == '\u{2028}' || c == '\u{2029}'
            || c == '\u{202f}' || c == '\u{205f}' || c == '\u{3000}',
        '0' <= c <= '9' || 'a' <= c <= 'z' || 'A' <= c <= 'Z' || c == '+' || c == '-' || c == '.'
            ==> !blank(c),
{
}

/// One digit names itself, and a further digit makes a number ten times as large and adds its
/// value; a number that grows too large names nothing.
pub proof fn law_digits_name_a_number(
    reply: Vec<char>,
    longer: Vec<char>,
    d: char,
    r: u64,
    s: u64,
)
    requires
        reply@.len() > 0,
        forall|j: int| 0 <= j < reply@.len() ==> '0' <= #[trigger] reply@[j] <= '9',
        '0' <= d <= '9',
        longer@ == reply@.push(d),
        call_ensures(memory_size, (&reply,), r),
        call_ensures(memory_size, (&longer,), s),
    ensures
        reply@.len() == 1 ==> r == reply@[0] as int - '0' as int,
        r > 0 && 10 * r + (d as int - '0' as int) <= u64::MAX ==> s == 10 * r + (d as int
            - '0' as int),
        r > 0 && 10 * r + (d as int - '0' as int) > u64::MAX ==> s == 0,
{
    let (a, b) = choose|a: int, b: int| #[trigger]
        core_of(reply@, a, b) && r == bytes_named(reply@.subrange(a, b));
    let (c, e) = choose|c: int, e: int| #[trigger]
        core_of(longer@, c, e) && s == bytes_named(longer@.subrange(c, e));
    assert('0' <= reply@[0] <= '9' && '0' <= reply@[reply@.len() - 1] <= '9');
    assert(longer@[0] == reply@[0]);
    lemma_whole_core(reply@, a, b);
    lemma_whole_core(longer@, c, e);
    assert(reply@.subrange(a, b) =~= reply@);
    assert(longer@.subrange(c, e) =~= longer@);
    assert forall|j: int| 0 <= j < reply@.len() implies digit(#[trigger] reply@[j]) by {}
    assert forall|j: int| 0 <= j < longer@.len() implies digit(#[trigger] longer@[j]) by {
        if j < reply@.len() {
            assert(longer@[j] == reply@[j]);
        }
    }
    assert(longer@.drop_last() =~= reply@);
    if reply@.len() == 1 {
        assert(reply@.drop_last().len() == 0);
        assert(value_of(reply@.drop_last()) == 0);
    }
}

proof fn lemma_leading_zero(digits: Seq<char>)
    ensures
        value_of(seq!['0'] + digits) == value_of(digits),
    decreases digits.len(),
{
    let all = seq!['0'] + digits;
    if digits.len() > 0 {
        lemma_leading_zero(digits.drop_last());
        assert(all.drop_last() =~= seq!['0'] + digits.drop_last());
        assert(all.last() == digits.last());
    } else {
        assert(all.drop_last() =~= digits);
        assert(all.last() == '0');
        assert(value_of(digits) == 0);
    }
}

/// A plus or a zero before digits makes no difference.
pub proof fn law_plus_and_zeros_are_ignored(
    reply: Vec<char>,
    signed: Vec<char>,
    padded: Vec<char>,
    r: u64,
    s: u64,
    t: u64,
)
    requires
        reply@.len() > 0,
        forall|j: int| 0 <= j < reply@.len() ==> '0' <= #[trigger] reply@[j] <= '9',
        signed@ == seq!['+'] + reply@,
        padded@ == seq!['0'] + reply@,
        call_ensures(memory_size, (&reply,), r),
        call_ensures(memory_size, (&signed,), s),
        call_ensures(memory_size, (&padded,), t),
    ensures
        s == r,
        t == r,
{
    let (a, b) = choose|a: int, b: int| #[trigger]
        core_of(reply@, a, b) && r == bytes_named(reply@.subrange(a, b));
    let (c, d) = choose|c: int, d: int| #[trigger]
        core_of(signed@, c, d) && s == bytes_named(signed@.subrange(c, d));
    let (e, f) = choose|e: int, f: int| #[trigger]
        core_of(padded@, e, f) && t == bytes_named(padded@.subrange(e, f));
    let last = reply@[reply@.len() - 1];
    assert('0' <= reply@[0] <= '9' && '0' <= last <= '9');
    assert(signed@[signed@.len() - 1] == last && padded@[padded@.len() - 1] == last);
    lemma_whole_core(reply@, a, b);
    lemma_whole_core(signed@, c, d);
    lemma_whole_core(padded@, e, f);
    assert(reply@.subrange(a, b) =~= reply@);
    assert(signed@.subrange(c, d) =~= signed@);
    assert(padded@.subrange(e, f) =~= padded@);
    assert(digits_of(signed@) =~= reply@);
    assert forall|j: int| 0 <= j < reply@.len() implies digit(#[trigger] reply@[j]) by {}
    assert forall|j: int| 0 <= j < padded@.len() implies digit(#[trigger] padded@[j]) by {
        if j > 0 {
            assert(padded@[j] == reply@[j - 1]);
        }
    }
    lemma_leading_zero(reply@);
}

/// A reply without digits, or with anything else between its ends than digits behind at most one
/// plus, names nothing.
pub proof fn law_other_text_names_nothing(reply: Vec<char>, r: u64, j: int)
    requires
        call_ensures(memory_size, (&reply,), r),
    ensures
        (forall|k: int| 0 <= k < reply@.len() ==> blank(#[trigger] reply@[k])) ==> r == 0,
        0 <= j < reply@.len() && !blank(reply@[j]) && !('0' <= reply@[j] <= '9') && reply@[j] != '+'
            ==> r == 0,
        0 < j < reply@.len() && reply@[j] == '+' && !blank(reply@[j - 1]) ==> r == 0,
{
    let (a, b) = choose|a: int, b: int| #[trigger]
        core_of(reply@, a, b) && r == bytes_named(reply@.subrange(a, b));
    let core = reply@.subrange(a, b);
    let digits = digits_of(core);
    if forall|k: int| 0 <= k < reply@.len() ==> blank(#[trigger] reply@[k]) {
        if a < b {
            assert(blank(reply@[a]));
        }
        assert(digits.len() == 0);
    }
    if 0 <= j < reply@.len() && !blank(reply@[j]) && !('0' <= reply@[j] <= '9') && (reply@[j] != '+'
        || 0 < j && !blank(reply@[j - 1])) {
        assert(a <= j < b) by {
            if j < a {
                assert(blank(reply@[j]));
            }
            if j >= b {
                assert(blank(reply@[j]));
            }
        }
        assert(core[j - a] == reply@[j]);
        let at = if core[0] == '+' {
            j - a - 1
        } else {
            j - a
        };
        if reply@[j] == '+' && a == j {
            assert(blank(reply@[j - 1]));
        }
        assert(0 <= at < digits.len());
        assert(digits[at] == reply@[j]);
        assert(!digit(digits[at]));
    }
}

proof fn lemma_nonzero_digit(digits: Seq<char>, j: int)
    requires
        0 <= j < digits.len(),
        digits[j] != '0',
        forall|k: int| 0 <= k < digits.len() ==> digit(#[trigger] digits[k]),
    ensures
        value_of(digits) > 0,
    decreases digits.len(),
{
    let front = digits.drop_last();
    assert forall|k: int| 0 <= k < front.len() implies digit(#[trigger] front[k]) by {
        assert(front[k] == digits[k]);
    }
    assert(digit(digits[digits.len() - 1]));
    if j < front.len() {
        assert(front[j] == digits[j]);
        lemma_nonzero_digit(front, j);
    } else {
        lemma_value_grows(front, front.len() as int);
        assert(front.subrange(0, front.len() as int) =~= front);
    }
}

/// A number that has grown too large names nothing with further digits either.
pub proof fn law_too_large_stays_too_large(
    reply: Vec<char>,
    longer: Vec<char>,
    d: char,
    j: int,
    r: u64,
    s: u64,
)
    requires
        0 <= j < reply@.len(),
        forall|k: int| 0 <= k < reply@.len() ==> '0' <= #[trigger] reply@[k] <= '9',
        reply@[j] != '0',
        '0' <= d <= '9',
        longer@ == reply@.push(d),
        call_ensures(memory_size, (&reply,), r),
        call_ensures(memory_size, (&longer,), s),
    ensures
        r == 0 ==> s == 0,
{
    let (a, b) = choose|a: int, b: int| #[trigger]
        core_of(reply@, a, b) && r == bytes_named(reply@.subrange(a, b));
    let (c, e) = choose|c: int, e: int| #[trigger]
        core_of(longer@, c, e) && s == bytes_named(longer@.subrange(c, e));
    assert('0' <= reply@[0] <= '9' && '0' <= reply@[reply@.len() - 1] <= '9');
    assert(longer@[0] == reply@[0]);
    lemma_whole_core(reply@, a, b);
    lemma_whole_core(longer@, c, e);
    assert(reply@.subrange(a, b) =~= reply@);
    assert(longer@.subrange(c, e) =~= longer@);
    assert forall|k: int| 0 <= k < reply@.len() implies digit(#[trigger] reply@[k]) by {}
    assert(longer@.drop_last() =~= reply@);
    lemma_nonzero_digit(reply@, j);
    if r == 0 {
        assert(value_of(reply@) > u64::MAX);
        assert(value_of(longer@) >= 10 * value_of(reply@));
    }
}

} // verus!
