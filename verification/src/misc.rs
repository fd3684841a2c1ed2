//! Shared data types: colors, render configuration, time ranges and samples.

use vstd::prelude::*;
use crate::error::InconsistentFormatError;
use crate::zero::Zero;

verus! {

/// Color specifiers.
#[derive(Copy, Clone, Debug)]
pub enum Color {
    /// A format with only one value per pixel, or gray scale in other words.
    Scalar(u8),
    /// 3-dimensional format (e.g. RGB format).
    Vector3(u8, u8, u8),
    /// 4-dimensional format (e.g. RGBA format).
    Vector4(u8, u8, u8, u8),
}

impl Color {
    /// The channel count of this color's format, which is also the number
    /// of bytes that one pixel of this color occupies in a rendered image.
    pub open spec fn channels(self) -> int {
        match self {
            Color::Scalar(_) => 1,
            Color::Vector3(..) => 3,
            Color::Vector4(..) => 4,
        }
    }

    /// The bytes that one pixel of this color occupies, in declared
    /// channel order.
    pub open spec fn bytes(self) -> Seq<u8> {
        match self {
            Color::Scalar(a) => seq![a],
            Color::Vector3(r, g, b) => seq![r, g, b],
            Color::Vector4(r, g, b, a) => seq![r, g, b, a],
        }
    }

    /// Two colors are consistent iff their formats have one channel count.
    pub open spec fn consistent_with(self, other: Color) -> bool {
        self.channels() == other.channels()
    }

    /// Returns the channel count of this color's format.
    pub fn channel_count(&self) -> (n: usize)
        ensures
            n == self.channels(),
            self.bytes().len() == n,
    {
        match self {
            Color::Scalar(_) => 1,
            Color::Vector3(..) => 3,
            Color::Vector4(..) => 4,
        }
    }

    /// Returns channel `i` of this color.
    pub fn byte_at(&self, i: usize) -> (b: u8)
        requires
            i < self.channels(),
        ensures
            b == self.bytes()[i as int],
    {
        match self {
            Color::Scalar(a) => *a,
            Color::Vector3(r, g, b) => {
                if i == 0 {
                    *r
                } else if i == 1 {
                    *g
                } else {
                    *b
                }
            },
            Color::Vector4(r, g, b, a) => {
                if i == 0 {
                    *r
                } else if i == 1 {
                    *g
                } else if i == 2 {
                    *b
                } else {
                    *a
                }
            },
        }
    }
}

/// The mathematical content of a `WaveformConfig`.
pub struct ConfigView {
    pub amp_min: int,
    pub amp_max: int,
    pub foreground: Color,
    pub background: Color,
}

impl ConfigView {
    /// A config is well formed when its two colors share one format and
    /// its amplitude range is not empty.
    pub open spec fn wf(self) -> bool {
        &&& self.foreground.consistent_with(self.background)
        &&& self.amp_min < self.amp_max
    }
}

/// Configurations for image generators.
///
/// It contains the following information:
///
///  * Range of the amplitudes to be rendered, in the same integer
///    amplitude units that the `Sample` values map to
///  * Foreground and background `Color`s to be used
#[derive(Copy, Clone)]
pub struct WaveformConfig {
    pub amp_min: i64,
    pub amp_max: i64,
    pub foreground: Color,
    pub background: Color,
}

impl WaveformConfig {
    /// A config is well formed when its two colors share one format and
    /// its amplitude range is not empty.
    pub open spec fn wf(self) -> bool {
        self@.wf()
    }

    fn check_color_consistency(c1: Color, c2: Color) -> (r: Result<(), InconsistentFormatError>)
        ensures
            r is Ok <==> c1.consistent_with(c2),
    {
        match c1 {
            Color::Scalar(_) => {
                if let Color::Scalar(_) = c2 {
                    Ok(())
                } else {
                    Err(InconsistentFormatError)
                }
            },
            Color::Vector3(..) => {
                if let Color::Vector3(..) = c2 {
                    Ok(())
                } else {
                    Err(InconsistentFormatError)
                }
            },
            Color::Vector4(..) => {
                if let Color::Vector4(..) = c2 {
                    Ok(())
                } else {
                    Err(InconsistentFormatError)
                }
            },
        }
    }

    /// The constructor.
    ///
    /// Construction succeeds if and only if the two colors share one
    /// format; a mismatch is rejected here, never at render time.
    ///
    /// # Arguments
    /// * `amp_min` - Minimum value of amplitude to be rendered
    /// * `amp_max` - Maximum value of amplitude to be rendered
    /// * `foreground` - Foreground `Color` of the image, format must be consistent with background.
    /// * `background` - Background `Color` of the image, format must be consistent with foreground.
    pub fn new(amp_min: i64, amp_max: i64, foreground: Color, background: Color) -> (r: Result<
        Self,
        InconsistentFormatError,
    >)
        requires
            amp_min < amp_max,
        ensures
            r is Ok <==> foreground.consistent_with(background),
            r matches Ok(c) ==> c@ == (ConfigView {
                amp_min: amp_min as int,
                amp_max: amp_max as int,
                foreground,
                background,
            }) && c.wf(),
    {
        match Self::check_color_consistency(background, foreground) {
            Err(e) => Err(e),
            _ => Ok(Self { amp_min, amp_max, background, foreground }),
        }
    }

    /// Returns the background color.
    pub fn get_background(&self) -> (c: Color)
        ensures
            c == self@.background,
    {
        self.background
    }

    /// Returns the foreground color.
    pub fn get_foreground(&self) -> (c: Color)
        ensures
            c == self@.foreground,
    {
        self.foreground
    }

    /// Sets `Color`s.
    ///
    /// The update is all-or-nothing: on a format mismatch the config is
    /// left exactly as it was.
    ///
    /// # Arguments
    /// * `background` - Background `Color` of the image, format must be consistent with foreground.
    /// * `foreground` - Foreground `Color` of the image, format must be consistent with background.
    pub fn set_colors(&mut self, background: Color, foreground: Color) -> (r: Result<
        (),
        InconsistentFormatError,
    >)
        ensures
            r is Ok <==> background.consistent_with(foreground),
            r is Ok ==> final(self)@ == (ConfigView {
                amp_min: old(self)@.amp_min,
                amp_max: old(self)@.amp_max,
                foreground,
                background,
            }),
            r is Err ==> *final(self) == *old(self),
    {
        match Self::check_color_consistency(background, foreground) {
            Err(e) => Err(e),
            _ => {
                self.background = background;
                self.foreground = foreground;
                Ok(())
            },
        }
    }
}

impl View for WaveformConfig {
    type V = ConfigView;

    open spec fn view(&self) -> ConfigView {
        ConfigView {
            amp_min: self.amp_min as int,
            amp_max: self.amp_max as int,
            foreground: self.foreground,
            background: self.background,
        }
    }
}

impl Default for WaveformConfig {
    /// The default config: unit amplitude range, white on black gray scale.
    fn default() -> (c: Self)
        ensures
            c@ == (ConfigView {
                amp_min: -1int,
                amp_max: 1int,
                foreground: Color::Scalar(255),
                background: Color::Scalar(0),
            }),
            c.wf(),
    {
        Self { amp_min: -1, amp_max: 1, foreground: Color::Scalar(255), background: Color::Scalar(0) }
    }
}

/// The number of time units in one second: timestamps and sample rates
/// are fixed-point values carrying this many units per second or hertz.
pub const MICROS_PER_SECOND: u64 = 1_000_000;

/// Converts a fixed-point timestamp (in millionths of a second) to a
/// sample index under a fixed-point sample rate (in millionths of a
/// hertz), truncating toward zero and saturating at `usize::MAX`.
pub open spec fn micros_to_sample(t: int, sample_rate: int) -> int {
    let s = (t * sample_rate) / (MICROS_PER_SECOND * MICROS_PER_SECOND);
    if s > usize::MAX {
        usize::MAX as int
    } else {
        s
    }
}

/// Time range specifiers used to determine which part of the wave to plot.
///
/// `Seconds` bounds are in millionths of a second; `Samples` bounds are
/// sample indices. In both forms the start must not exceed the end.
#[derive(Copy, Clone, Debug)]
pub enum TimeRange {
    Seconds(u64, u64),
    Samples(usize, usize),
}

impl TimeRange {
    /// A range is valid when its start does not lie after its end.
    pub open spec fn valid(self) -> bool {
        match self {
            TimeRange::Seconds(b, e) => b <= e,
            TimeRange::Samples(b, e) => b <= e,
        }
    }

    /// The sample-index bounds that this range denotes under the given
    /// fixed-point sample rate.
    pub open spec fn spec_sample_bounds(self, sample_rate: int) -> (int, int) {
        match self {
            TimeRange::Seconds(b, e) => (
                micros_to_sample(b as int, sample_rate),
                micros_to_sample(e as int, sample_rate),
            ),
            TimeRange::Samples(b, e) => (b as int, e as int),
        }
    }

    /// Converts this range to `(begin, end)` sample indices.
    pub fn to_sample_tuple(&self, sample_rate: u64) -> (r: (usize, usize))
        ensures
            (r.0 as int, r.1 as int) == self.spec_sample_bounds(sample_rate as int),
            self.valid() ==> r.0 <= r.1,
    {
        match self {
            TimeRange::Seconds(b, e) => {
                let begin = micros_to_sample_exec(*b, sample_rate);
                let end = micros_to_sample_exec(*e, sample_rate);
                proof {
                    if *b <= *e {
                        lemma_micros_to_sample_monotonic(*b as int, *e as int, sample_rate as int);
                    }
                }
                (begin, end)
            },
            TimeRange::Samples(b, e) => (*b, *e),
        }
    }
}

/// Converts one fixed-point timestamp to a saturated sample index.
fn micros_to_sample_exec(t: u64, sample_rate: u64) -> (r: usize)
    ensures
        r == micros_to_sample(t as int, sample_rate as int),
{
    proof {
        vstd::arithmetic::mul::lemma_mul_upper_bound(
            t as int,
            u64::MAX as int,
            sample_rate as int,
            u64::MAX as int,
        );
    }
    let den: u128 = 1_000_000_000_000u128;
    assert(den == MICROS_PER_SECOND * MICROS_PER_SECOND);
    let q: u128 = ((t as u128) * (sample_rate as u128)) / den;
    if q > usize::MAX as u128 {
        usize::MAX
    } else {
        q as usize
    }
}

/// A later timestamp never maps to an earlier sample index.
proof fn lemma_micros_to_sample_monotonic(t1: int, t2: int, sample_rate: int)
    requires
        0 <= t1 <= t2,
        0 <= sample_rate,
    ensures
        micros_to_sample(t1, sample_rate) <= micros_to_sample(t2, sample_rate),
{
    vstd::arithmetic::mul::lemma_mul_inequality(t1, t2, sample_rate);
    vstd::arithmetic::div_mod::lemma_div_is_ordered(
        t1 * sample_rate,
        t2 * sample_rate,
        (MICROS_PER_SECOND * MICROS_PER_SECOND) as int,
    );
}

/// A sample: a value with an order, a zero, and a mapping to the integer
/// amplitude domain that configs and rendered rows live in.
pub trait Sample: Copy + Zero {
    /// The amplitude of this sample.
    spec fn sv(self) -> i64;

    /// The zero sample maps to the zero amplitude.
    proof fn lemma_zero_sv()
        ensures
            Self::spec_zero().sv() == 0,
    ;

    /// Strict order on amplitudes.
    fn lt(self, other: Self) -> (r: bool)
        ensures
            r == (self.sv() < other.sv()),
    ;

    /// Strict order on amplitudes.
    fn gt(self, other: Self) -> (r: bool)
        ensures
            r == (self.sv() > other.sv()),
    ;

    /// The amplitude of this sample, as a value.
    fn amp(self) -> (r: i64)
        ensures
            r == self.sv(),
    ;
}

impl Sample for i16 {
    open spec fn sv(self) -> i64 {
        self as i64
    }

    proof fn lemma_zero_sv() {
    }

    fn lt(self, other: Self) -> bool {
        self < other
    }

    fn gt(self, other: Self) -> bool {
        self > other
    }

    fn amp(self) -> i64 {
        self as i64
    }
}

impl Sample for u16 {
    open spec fn sv(self) -> i64 {
        self as i64
    }

    proof fn lemma_zero_sv() {
    }

    fn lt(self, other: Self) -> bool {
        self < other
    }

    fn gt(self, other: Self) -> bool {
        self > other
    }

    fn amp(self) -> i64 {
        self as i64
    }
}

impl Sample for i32 {
    open spec fn sv(self) -> i64 {
        self as i64
    }

    proof fn lemma_zero_sv() {
    }

    fn lt(self, other: Self) -> bool {
        self < other
    }

    fn gt(self, other: Self) -> bool {
        self > other
    }

    fn amp(self) -> i64 {
        self as i64
    }
}

impl Sample for u32 {
    open spec fn sv(self) -> i64 {
        self as i64
    }

    proof fn lemma_zero_sv() {
    }

    fn lt(self, other: Self) -> bool {
        self < other
    }

    fn gt(self, other: Self) -> bool {
        self > other
    }

    fn amp(self) -> i64 {
        self as i64
    }
}

impl Sample for u8 {
    open spec fn sv(self) -> i64 {
        self as i64
    }

    proof fn lemma_zero_sv() {
    }

    fn lt(self, other: Self) -> bool {
        self < other
    }

    fn gt(self, other: Self) -> bool {
        self > other
    }

    fn amp(self) -> i64 {
        self as i64
    }
}

impl Sample for i8 {
    open spec fn sv(self) -> i64 {
        self as i64
    }

    proof fn lemma_zero_sv() {
    }

    fn lt(self, other: Self) -> bool {
        self < other
    }

    fn gt(self, other: Self) -> bool {
        self > other
    }

    fn amp(self) -> i64 {
        self as i64
    }
}

/// A reference to a `slice` of `Sample`s (which describe a wave)
/// combined with its fixed-point sample rate.
pub struct SampleSequence<'a, T: Sample> {
    pub data: &'a [T],
    pub sample_rate: u64,
}

impl<'a, T: Sample> SampleSequence<'a, T> {
    /// The amplitudes of the samples, in order.
    pub open spec fn amps(self) -> Seq<i64> {
        self.data@.map_values(|s: T| s.sv())
    }
}

/// A pair of a minimum and maximum amplitude values for internal use.
#[derive(Copy, Clone)]
pub struct MinMaxPair<T: Sample> {
    pub min: T,
    pub max: T,
}

/// A sequence of `MinMaxPair`s.
pub struct MinMaxPairSequence<T: Sample> {
    pub data: Vec<MinMaxPair<T>>,
}

} // verus!
