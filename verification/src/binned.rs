//! A fast "binned" waveform renderer.
//!
//! Minimum / maximum amplitude values are binned to reduce
//! calculation and memory usage.

use vstd::prelude::*;
use vstd::string::StringExecFns;
use crate::error::InvalidSizeError;
use crate::misc::{
    Color, ConfigView, MinMaxPair, MinMaxPairSequence, Sample, SampleSequence, TimeRange,
    WaveformConfig,
};
use crate::zero::Zero;

verus! {

/// The least amplitude among `s[from..to)`; a window of fewer than two
/// entries yields the seed `s[from]`.
pub open spec fn window_min(s: Seq<i64>, from: int, to: int) -> i64
    decreases to - from,
{
    if to <= from + 1 {
        s[from]
    } else {
        let m = window_min(s, from, to - 1);
        if s[to - 1] < m {
            s[to - 1]
        } else {
            m
        }
    }
}

/// The greatest amplitude among `s[from..to)`; a window of fewer than two
/// entries yields the seed `s[from]`.
pub open spec fn window_max(s: Seq<i64>, from: int, to: int) -> i64
    decreases to - from,
{
    if to <= from + 1 {
        s[from]
    } else {
        let m = window_max(s, from, to - 1);
        if s[to - 1] > m {
            s[to - 1]
        } else {
            m
        }
    }
}

/// The min/max amplitude pairs that binning `amps` with `bin_size`
/// produces: pair `k` covers `amps[k*bin_size .. (k+1)*bin_size)`, and
/// the trailing partial window is dropped.
pub open spec fn binned_pairs(amps: Seq<i64>, bin_size: int) -> Seq<(i64, i64)> {
    Seq::new(
        ((amps.len() as int) / bin_size) as nat,
        |k: int| (
            window_min(amps, k * bin_size, k * bin_size + bin_size),
            window_max(amps, k * bin_size, k * bin_size + bin_size),
        ),
    )
}

/// The mathematical content of a `BinnedWaveformRenderer`.
pub struct BinnedView {
    pub bin_size: int,
    pub sample_rate: int,
    pub pairs: Seq<(i64, i64)>,
    pub config: ConfigView,
}

impl BinnedView {
    /// A binned index is well formed when it holds at least one bin of a
    /// positive size and its config is valid.
    pub open spec fn wf(self) -> bool {
        &&& self.bin_size >= 1
        &&& self.pairs.len() >= 1
        &&& self.config.wf()
    }
}

/// The view that constructing a binned index over `amps` yields.
pub open spec fn binned_view(
    amps: Seq<i64>,
    sample_rate: int,
    bin_size: int,
    config: ConfigView,
) -> BinnedView {
    BinnedView { bin_size, sample_rate, pairs: binned_pairs(amps, bin_size), config }
}

/// A fast "binned" waveform renderer.
///
/// Minimum / maximum amplitude values are binned to reduce
/// calculation and memory usage.
pub struct BinnedWaveformRenderer<T: Sample> {
    pub config: WaveformConfig,
    sample_rate: u64,
    bin_size: usize,
    minmax: MinMaxPairSequence<T>,
}

impl<T: Sample> View for BinnedWaveformRenderer<T> {
    type V = BinnedView;

    closed spec fn view(&self) -> BinnedView {
        BinnedView {
            bin_size: self.bin_size as int,
            sample_rate: self.sample_rate as int,
            pairs: self.minmax.data@.map_values(|p: MinMaxPair<T>| (p.min.sv(), p.max.sv())),
            config: self.config@,
        }
    }
}

impl<T: Sample> BinnedWaveformRenderer<T> {
    /// A renderer is well formed when its view is. Direct writes to the
    /// public `config` field must keep the config well formed.
    pub open spec fn wf(self) -> bool {
        self@.wf()
    }

    /// The constructor.
    ///
    /// Fails with an `InvalidSizeError` exactly when `bin_size` is zero or
    /// exceeds the sample count; otherwise the result holds one min/max
    /// pair for each full window of `bin_size` samples.
    ///
    /// # Arguments
    ///
    /// * `samples` - The samples that will be used to calculate binned min / max values.
    ///               It must also contain the sample rate that is used by
    ///               `BinnedWaveformRenderer` to render images when given a
    ///               `TimeRange::Seconds`.
    /// * `bin_size` - The size of the bins which the min / max values will be binned
    ///                into.
    /// * `config` - See `WaveformConfig`.
    pub fn new(samples: &SampleSequence<T>, bin_size: usize, config: WaveformConfig) -> (r: Result<
        BinnedWaveformRenderer<T>,
        InvalidSizeError,
    >)
        requires
            config.wf(),
        ensures
            r is Ok <==> 1 <= bin_size <= samples.data@.len(),
            r matches Ok(w) ==> w@ == binned_view(
                samples.amps(),
                samples.sample_rate as int,
                bin_size as int,
                config@,
            ) && w.wf(),
            r matches Err(e) ==> e.var_name@ == "bin_size"@,
    {
        let nb_samples = samples.data.len();

        if bin_size > nb_samples || bin_size == 0 {
            return Err(InvalidSizeError { var_name: String::from_str("bin_size") });
        }

        let ghost amps = samples.amps();
        let nb_bins = nb_samples / bin_size;
        let mut data: Vec<MinMaxPair<T>> = Vec::new();
        let mut start: usize = 0;
        let mut x: usize = 0;

        proof {
            vstd::arithmetic::div_mod::lemma_div_non_zero(nb_samples as int, bin_size as int);
        }

        while x < nb_bins
            invariant
                1 <= bin_size <= nb_samples == samples.data@.len(),
                nb_bins == nb_samples as int / bin_size as int,
                x <= nb_bins,
                start == x * bin_size,
                start + bin_size <= nb_samples || x == nb_bins,
                amps == samples.amps(),
                data@.len() == x,
                forall|k: int|
                    0 <= k < x ==> (#[trigger] data@[k]).min.sv() == binned_pairs(
                        amps,
                        bin_size as int,
                    )[k].0 && data@[k].max.sv() == binned_pairs(amps, bin_size as int)[k].1,
            decreases nb_bins - x,
        {
            proof {
                lemma_bin_window_in_bounds(nb_samples as int, bin_size as int, x as int);
            }
            let mut mn = samples.data[start];
            let mut mx = samples.data[start];
            let mut i: usize = 1;

            while i < bin_size
                invariant
                    1 <= i <= bin_size,
                    start + bin_size <= nb_samples == samples.data@.len(),
                    amps == samples.amps(),
                    mn.sv() == window_min(amps, start as int, start + i),
                    mx.sv() == window_max(amps, start as int, start + i),
                    mn.sv() <= mx.sv(),
                decreases bin_size - i,
            {
                let s = samples.data[start + i];
                assert(amps[start + i] == s.sv());
                if s.gt(mx) {
                    mx = s;
                } else if s.lt(mn) {
                    mn = s;
                }
                i += 1;
            }

            data.push(MinMaxPair { min: mn, max: mx });
            proof {
                assert((x + 1) * bin_size == x * bin_size + bin_size) by (nonlinear_arith);
                if x + 1 < nb_bins {
                    lemma_bin_window_in_bounds(nb_samples as int, bin_size as int, x + 1 as int);
                }
            }
            x += 1;
            start += bin_size;
        }

        let minmax = MinMaxPairSequence { data };
        let result = Self { config, bin_size, minmax, sample_rate: samples.sample_rate };
        proof {
            let bp = binned_pairs(amps, bin_size as int);
            assert forall|k: int| 0 <= k < result@.pairs.len() implies result@.pairs[k] == bp[k] by {
                assert(data@[k].min.sv() == bp[k].0);
                assert(data@[k].max.sv() == bp[k].1);
            }
            assert(result@.pairs =~= bp);
        }
        Ok(result)
    }

    /// Scans the pairs `[start, min(start + inc, len))`, seeded with the
    /// pair under the cursor, and returns the column envelope together
    /// with the advanced cursor.
    fn column_envelope(&self, start: usize, inc: usize) -> (r: (i64, i64, usize))
        requires
            start < self@.pairs.len() - 1,
        ensures
            r.2 == if start + inc <= self@.pairs.len() {
                start + inc
            } else {
                self@.pairs.len() as int
            },
            r.0 == window_min(pair_mins(self@.pairs), start as int, r.2 as int),
            r.1 == window_max(pair_maxs(self@.pairs), start as int, r.2 as int),
    {
        let len = self.minmax.data.len();
        let seed = &self.minmax.data[start];
        let mut mn = seed.min;
        let mut mx = seed.max;
        let range_end = if inc > len - start {
            len
        } else {
            start + inc
        };
        let mut j = start;
        while j < range_end
            invariant
                start <= j <= range_end <= len,
                len == self@.pairs.len(),
                start < len,
                mn.sv() == window_min(
                    pair_mins(self@.pairs),
                    start as int,
                    if j == start {
                        start + 1
                    } else {
                        j as int
                    },
                ),
                mx.sv() == window_max(
                    pair_maxs(self@.pairs),
                    start as int,
                    if j == start {
                        start + 1
                    } else {
                        j as int
                    },
                ),
            decreases range_end - j,
        {
            let b = &self.minmax.data[j];
            proof {
                assert(pair_mins(self@.pairs)[j as int] == b.min.sv());
                assert(pair_maxs(self@.pairs)[j as int] == b.max.sv());
            }
            if b.min.lt(mn) {
                mn = b.min;
            }
            if b.max.gt(mx) {
                mx = b.max;
            }
            j += 1;
        }
        (mn.amp(), mx.amp(), range_end)
    }

    /// Renders an image as a `Vec<u8>`.
    ///
    /// `None` will be returned if and only if the area of the specified
    /// `shape` is equal to zero; a zero-area request is a soft case, not
    /// an error.
    ///
    /// # Arguments
    ///
    /// * `range` - The samples within this `TimeRange` will be rendered.
    /// * `shape` - The `(width, height)` of the resulting image in pixels.
    pub fn render_vec(&self, range: TimeRange, shape: (usize, usize)) -> (r: Option<Vec<u8>>)
        requires
            self.wf(),
            range.valid(),
            shape.0 * shape.1 * self@.config.background.channels() <= usize::MAX,
        ensures
            r is Some <==> shape.0 > 0 && shape.1 > 0,
            r matches Some(img) ==> img@.len() == shape.0 * shape.1
                * self@.config.background.channels() && forall|k: int|
                0 <= k < img@.len() ==> img@[k] == fresh_byte(
                    self@,
                    range.spec_sample_bounds(self@.sample_rate).0,
                    range.spec_sample_bounds(self@.sample_rate).1,
                    shape.0 as int,
                    shape.1 as int,
                    k,
                ),
    {
        let (w, h) = shape;
        if w == 0 || h == 0 {
            return None;
        }
        let ch = self.config.get_background().channel_count();
        proof {
            vstd::arithmetic::mul::lemma_mul_strictly_positive(w as int, h as int);
            vstd::arithmetic::mul::lemma_mul_increases(ch as int, w as int * h as int);
            vstd::arithmetic::mul::lemma_mul_is_commutative(ch as int, w as int * h as int);
            assert(ch as int * (w as int * h as int) == w as int * h as int * ch as int)
                by (nonlinear_arith);
            assert(ch as int * w as int * h as int == w as int * h as int * ch as int)
                by (nonlinear_arith);
        }
        let total = w * h * ch;
        let mut img = zero_bytes(total);
        let ghost img0v = img@;
        let res = self.render_write(range, (0, 0), (w, h), img.as_mut_slice(), (w, h));
        res.unwrap();
        proof {
            let v = self@;
            let bounds = range.spec_sample_bounds(v.sample_rate);
            assert forall|k: int| 0 <= k < img@.len() implies img@[k] == fresh_byte(
                v,
                bounds.0,
                bounds.1,
                w as int,
                h as int,
                k,
            ) by {
                lemma_write_covers_fresh(img0v, v, bounds.0, bounds.1, w as int, h as int, k);
            }
        }
        Some(img)
    }

    /// Writes the image into a mutable reference to a slice.
    ///
    /// It will return an `InvalidSizeError` if
    ///
    /// * the area of the specified `shape` is equal to zero.
    /// * the target rectangle `offsets + shape` does not fit inside
    ///   `full_shape`.
    /// * the length of `img` is not long enough to hold a canvas of
    ///   `full_shape`: `(full width) * (full height) * (bytes per pixel)
    ///   <= img.len()` must be satisfied.
    ///
    /// On success every pixel of the target rectangle is overwritten as
    /// `written_byte` states, and every byte outside it is untouched.
    ///
    /// # Arguments
    ///
    /// * `range` - The samples within this `TimeRange` will be rendered.
    /// * `offsets` - The `(x-offset, y-offset)` of the part of the `img` that is
    ///               going to be overwritten in pixels.
    ///               Specifies the starting position to write into `img`.
    /// * `shape` - The `(width, height)` of the part of the `img` that is going
    ///             to be overwritten in pixels.
    /// * `img`   - A mutable reference to the slice to write the result into.
    /// * `full_shape` - The `(width, height)` of the whole `img` in pixels.
    #[verifier::loop_isolation(false)]
    pub fn render_write(
        &self,
        range: TimeRange,
        offsets: (usize, usize),
        shape: (usize, usize),
        img: &mut [u8],
        full_shape: (usize, usize),
    ) -> (r: Result<(), InvalidSizeError>)
        requires
            self.wf(),
            range.valid(),
        ensures
            final(img)@.len() == old(img)@.len(),
            r is Err ==> final(img)@ == old(img)@,
            r is Ok <==> shape.0 > 0 && shape.1 > 0 && offsets.0 + shape.0 <= full_shape.0
                && offsets.1 + shape.1 <= full_shape.1 && self@.config.background.channels()
                * full_shape.0 * full_shape.1 <= old(img)@.len(),
            shape.0 == 0 || shape.1 == 0 ==> (r matches Err(e) && e.var_name@ == "shape"@),
            shape.0 > 0 && shape.1 > 0 && (offsets.0 + shape.0 > full_shape.0 || offsets.1
                + shape.1 > full_shape.1) ==> (r matches Err(e) && e.var_name@
                == "shape and/or full_shape"@),
            shape.0 > 0 && shape.1 > 0 && offsets.0 + shape.0 <= full_shape.0 && offsets.1
                + shape.1 <= full_shape.1 && self@.config.background.channels() * full_shape.0
                * full_shape.1 > old(img)@.len() ==> (r matches Err(e) && e.var_name@
                == "img and/or full_shape"@),
            r is Ok ==> forall|k: int|
                0 <= k < old(img)@.len() ==> final(img)@[k] == written_byte(
                    old(img)@,
                    self@,
                    range.spec_sample_bounds(self@.sample_rate).0,
                    range.spec_sample_bounds(self@.sample_rate).1,
                    offsets.0 as int,
                    offsets.1 as int,
                    shape.0 as int,
                    shape.1 as int,
                    full_shape.0 as int,
                    k,
                ),
    {
        let (w, h) = shape;
        if w == 0 || h == 0 {
            return Err(InvalidSizeError { var_name: String::from_str("shape") });
        }
        let (fullw, fullh) = full_shape;
        let (offx, offy) = offsets;
        if w > fullw || offx > fullw - w || h > fullh || offy > fullh - h {
            return Err(InvalidSizeError { var_name: String::from_str("shape and/or full_shape") });
        }
        let ch = self.config.get_background().channel_count();
        let n = img.len();
        proof {
            vstd::arithmetic::mul::lemma_mul_upper_bound(
                fullw as int,
                u64::MAX as int,
                fullh as int,
                u64::MAX as int,
            );
            vstd::arithmetic::mul::lemma_mul_is_associative(ch as int, fullw as int, fullh as int);
        }
        let pix: u128 = (fullw as u128) * (fullh as u128);
        let fits: bool;
        if pix <= usize::MAX as u128 {
            proof {
                vstd::arithmetic::mul::lemma_mul_upper_bound(
                    ch as int,
                    4,
                    pix as int,
                    usize::MAX as int,
                );
            }
            fits = (ch as u128) * pix <= n as u128;
        } else {
            proof {
                vstd::arithmetic::mul::lemma_mul_increases(ch as int, pix as int);
                vstd::arithmetic::mul::lemma_mul_is_commutative(ch as int, pix as int);
            }
            fits = false;
        }
        if !fits {
            return Err(InvalidSizeError { var_name: String::from_str("img and/or full_shape") });
        }

        let (begin, end) = range.to_sample_tuple(self.sample_rate);
        let nb = end - begin;
        let (flr, cel) = bins_per_pixel_exec(nb, w, self.bin_size);
        let offset_bin_idx = begin / self.bin_size;
        let mut start_bin_idx = offset_bin_idx;
        let len = self.minmax.data.len();
        let amp_min = self.config.amp_min;
        let amp_max = self.config.amp_max;
        let fg = self.config.get_foreground();
        let bg = self.config.get_background();

        let ghost img0 = img@;
        let ghost v = self@;
        let mut x: usize = 0;

        while x < w
            invariant
                x <= w,
                start_bin_idx == cursor_at(
                    len as int,
                    nb as int,
                    w as int,
                    v.bin_size,
                    offset_bin_idx as int,
                    x as int,
                ),
                offset_bin_idx <= start_bin_idx,
                start_bin_idx <= len || start_bin_idx == offset_bin_idx,
                img@.len() == img0.len(),
                forall|k: int|
                    0 <= k < img0.len() ==> img@[k] == (if in_target(
                        k,
                        ch as int,
                        fullw as int,
                        offx as int,
                        offy as int,
                        w as int,
                        h as int,
                    ) && (k / (ch as int)) % (fullw as int) - offx < x {
                        written_byte(
                            img0,
                            v,
                            begin as int,
                            end as int,
                            offx as int,
                            offy as int,
                            w as int,
                            h as int,
                            fullw as int,
                            k,
                        )
                    } else {
                        img0[k]
                    }),
            decreases w - x,
        {
            let inc = advance_exec(
                nb,
                w,
                self.bin_size,
                x,
                start_bin_idx - offset_bin_idx,
                flr,
                cel,
            );
            let ghost c = start_bin_idx as int;
            let mnv: i64;
            let mxv: i64;
            if start_bin_idx < len - 1 {
                let env = self.column_envelope(start_bin_idx, inc);
                mnv = env.0;
                mxv = env.1;
                start_bin_idx = env.2;
            } else {
                let z = T::zero();
                proof {
                    T::lemma_zero_sv();
                }
                mnv = z.amp();
                mxv = z.amp();
            }
            proof {
                assert(start_bin_idx == cursor_step(
                    len as int,
                    nb as int,
                    w as int,
                    v.bin_size,
                    offset_bin_idx as int,
                    c,
                    x as int,
                ));
                assert(mnv == column_min(v, nb as int, w as int, offset_bin_idx as int, x as int));
                assert(mxv == column_max(v, nb as int, w as int, offset_bin_idx as int, x as int));
            }
            let maxt = translate_exec(mxv, amp_min, amp_max, h);
            let mint = translate_exec(mnv, amp_min, amp_max, h);
            let ghost prev = img@;
            proof {
                assert(ch * fullw * (offy + h) <= img0.len()) by (nonlinear_arith)
                    requires
                        ch * (fullw * fullh) <= img0.len(),
                        offy + h <= fullh,
                        ch >= 1,
                        fullw >= 1,
                ;
            }
            fill_column(img, fullw, ch, offx, offy, x, h, maxt, mint, &fg, &bg);
            proof {
                assert forall|k: int| 0 <= k < img0.len() implies img@[k] == (if in_target(
                    k,
                    ch as int,
                    fullw as int,
                    offx as int,
                    offy as int,
                    w as int,
                    h as int,
                ) && (k / (ch as int)) % (fullw as int) - offx < x + 1 {
                    written_byte(
                        img0,
                        v,
                        begin as int,
                        end as int,
                        offx as int,
                        offy as int,
                        w as int,
                        h as int,
                        fullw as int,
                        k,
                    )
                } else {
                    img0[k]
                }) by {
                    assert(img@[k] == col_byte_upto(
                        prev,
                        ch as int,
                        fullw as int,
                        offx as int,
                        offy as int,
                        x as int,
                        maxt as int,
                        mint as int,
                        h as int,
                        fg,
                        bg,
                        k,
                    ));
                }
            }
            x += 1;
        }
        Ok(())
    }

    /// Copies the binned minimum and maximum amplitude arrays out, in
    /// bin order. These are the arrays that an external compute backend
    /// (one that mirrors the CPU algorithm, e.g. on a GPU) consumes.
    pub fn envelope_arrays(&self) -> (r: (Vec<i64>, Vec<i64>))
        ensures
            r.0@ == pair_mins(self@.pairs),
            r.1@ == pair_maxs(self@.pairs),
    {
        let len = self.minmax.data.len();
        let mut mins: Vec<i64> = Vec::new();
        let mut maxs: Vec<i64> = Vec::new();
        let mut i: usize = 0;
        while i < len
            invariant
                i <= len == self@.pairs.len(),
                mins@.len() == i,
                maxs@.len() == i,
                forall|j: int| 0 <= j < i ==> mins@[j] == pair_mins(self@.pairs)[j],
                forall|j: int| 0 <= j < i ==> maxs@[j] == pair_maxs(self@.pairs)[j],
            decreases len - i,
        {
            let p = &self.minmax.data[i];
            mins.push(p.min.amp());
            maxs.push(p.max.amp());
            i += 1;
        }
        proof {
            assert(mins@ =~= pair_mins(self@.pairs));
            assert(maxs@ =~= pair_maxs(self@.pairs));
        }
        (mins, maxs)
    }

    /// The per-column bin-offset table for the given window and width:
    /// entry `x` is the total cursor advance before column `x`, so the
    /// table has `w + 1` entries and obeys the drift-correction
    /// recurrence. An external compute backend renders column `x` from
    /// the bins `[table[x], table[x + 1])`, counted from the window's
    /// first bin.
    #[verifier::loop_isolation(false)]
    pub fn bin_offsets(&self, range: TimeRange, w: usize) -> (r: Vec<usize>)
        requires
            self.wf(),
            range.valid(),
            w >= 1,
            (range.spec_sample_bounds(self@.sample_rate).1 - range.spec_sample_bounds(
                self@.sample_rate,
            ).0) / self@.bin_size + w <= usize::MAX,
        ensures
            r@.len() == w + 1,
            r@[0] == 0,
            forall|x: int|
                0 <= x < w ==> r@[x + 1] == (#[trigger] r@[x]) + advance_at(
                    range.spec_sample_bounds(self@.sample_rate).1 - range.spec_sample_bounds(
                        self@.sample_rate,
                    ).0,
                    w as int,
                    self@.bin_size,
                    x,
                    r@[x] as int,
                ),
    {
        let (begin, end) = range.to_sample_tuple(self.sample_rate);
        let nb = end - begin;
        let bs = self.bin_size;
        let (flr, cel) = bins_per_pixel_exec(nb, w, bs);
        proof {
            lemma_table_slack(nb as int, w as int, bs as int);
        }
        let mut table: Vec<usize> = Vec::new();
        let mut t: usize = 0;
        table.push(0);
        let mut x: usize = 0;
        while x < w
            invariant
                x <= w,
                table@.len() == x + 1,
                table@[0] == 0,
                t == table@[x as int],
                t <= x * (bins_per_pixel_floor(nb as int, w as int, bs as int) + 1),
                flr == bins_per_pixel_floor(nb as int, w as int, bs as int),
                cel == bins_per_pixel_ceil(nb as int, w as int, bs as int),
                w * (bins_per_pixel_floor(nb as int, w as int, bs as int) + 1) <= usize::MAX,
                forall|j: int|
                    0 <= j < x ==> table@[j + 1] == (#[trigger] table@[j]) + advance_at(
                        nb as int,
                        w as int,
                        bs as int,
                        j,
                        table@[j] as int,
                    ),
            decreases w - x,
        {
            let inc = advance_exec(nb, w, bs, x, t, flr, cel);
            proof {
                vstd::arithmetic::mul::lemma_mul_strictly_positive(w as int, bs as int);
                lemma_ceil_div_bounds(nb as int, (w * bs) as int);
                vstd::arithmetic::mul::lemma_mul_upper_bound(
                    w as int,
                    u64::MAX as int,
                    bs as int,
                    u64::MAX as int,
                );
                let f1 = bins_per_pixel_floor(nb as int, w as int, bs as int) + 1;
                assert(x * f1 + f1 == (x + 1) * f1) by (nonlinear_arith);
                vstd::arithmetic::mul::lemma_mul_inequality(x + 1 as int, w as int, f1);
            }
            t = t + inc;
            table.push(t);
            x += 1;
        }
        table
    }

    /// Returns the bin size.
    pub fn get_bin_size(&self) -> (r: usize)
        ensures
            r == self@.bin_size,
    {
        self.bin_size
    }

    /// Returns the fixed-point sample rate.
    pub fn get_sample_rate(&self) -> (r: u64)
        ensures
            r == self@.sample_rate,
    {
        self.sample_rate
    }
}

/// The whole-bin count of the ideal bins-per-pixel ratio
/// `(end - begin) / (w * bin_size)`.
pub open spec fn bins_per_pixel_floor(nb: int, w: int, bs: int) -> int {
    nb / (w * bs)
}

/// The ideal bins-per-pixel ratio rounded upward.
pub open spec fn bins_per_pixel_ceil(nb: int, w: int, bs: int) -> int {
    (nb + w * bs - 1) / (w * bs)
}

/// The drift-correction rule: column `x` advances the cursor by the
/// ceiling count exactly when one more bin per column so far would still
/// fall short of the ideal ratio `nb / (w * bs)` bins per column, that
/// is when `(adv + 1) / x < nb / (w * bs)` over the rationals.
pub open spec fn advance_takes_ceil(nb: int, w: int, bs: int, x: int, adv: int) -> bool {
    (adv + 1) * (w * bs) < nb * x
}

/// How many bins column `x` consumes, given that the cursor has advanced
/// by `adv` bins over the columns before it. Column 0 always takes the
/// floor count.
pub open spec fn advance_at(nb: int, w: int, bs: int, x: int, adv: int) -> int {
    if x == 0 {
        bins_per_pixel_floor(nb, w, bs)
    } else if advance_takes_ceil(nb, w, bs, x, adv) {
        bins_per_pixel_ceil(nb, w, bs)
    } else {
        bins_per_pixel_floor(nb, w, bs)
    }
}

/// One column step of the bin cursor `c` at column `x`: the cursor scans
/// forward by the column's advance, clipped to the pair count `len`; a
/// cursor at or past the last pair is stuck.
pub open spec fn cursor_step(len: int, nb: int, w: int, bs: int, offset: int, c: int, x: int) -> int {
    if c < len - 1 {
        let e = c + advance_at(nb, w, bs, x, c - offset);
        if e <= len {
            e
        } else {
            len
        }
    } else {
        c
    }
}

/// The bin cursor just before column `x` is rendered; it starts at
/// `offset`, the bin holding the window's first sample.
pub open spec fn cursor_at(len: int, nb: int, w: int, bs: int, offset: int, x: int) -> int
    decreases x,
{
    if x <= 0 {
        offset
    } else {
        cursor_step(len, nb, w, bs, offset, cursor_at(len, nb, w, bs, offset, x - 1), x - 1)
    }
}

/// The minimum amplitudes of a pair sequence.
pub open spec fn pair_mins(pairs: Seq<(i64, i64)>) -> Seq<i64> {
    pairs.map_values(|p: (i64, i64)| p.0)
}

/// The maximum amplitudes of a pair sequence.
pub open spec fn pair_maxs(pairs: Seq<(i64, i64)>) -> Seq<i64> {
    pairs.map_values(|p: (i64, i64)| p.1)
}

/// The least amplitude that column `x` covers: the fold of the scanned
/// bin range, seeded with the pair under the cursor. A column whose
/// cursor stands at or past the last pair covers the zero amplitude.
pub open spec fn column_min(v: BinnedView, nb: int, w: int, offset: int, x: int) -> i64 {
    let len = v.pairs.len() as int;
    let c = cursor_at(len, nb, w, v.bin_size, offset, x);
    if c < len - 1 {
        window_min(pair_mins(v.pairs), c, cursor_step(len, nb, w, v.bin_size, offset, c, x))
    } else {
        0
    }
}

/// The greatest amplitude that column `x` covers; see `column_min`.
pub open spec fn column_max(v: BinnedView, nb: int, w: int, offset: int, x: int) -> i64 {
    let len = v.pairs.len() as int;
    let c = cursor_at(len, nb, w, v.bin_size, offset, x);
    if c < len - 1 {
        window_max(pair_maxs(v.pairs), c, cursor_step(len, nb, w, v.bin_size, offset, c, x))
    } else {
        0
    }
}

/// Clamps `v` into `[0, h]`.
pub open spec fn clamp_to(v: int, h: int) -> int {
    if v < 0 {
        0
    } else if v > h {
        h
    } else {
        v
    }
}

/// Maps amplitude `v` to a row boundary by linear interpolation over
/// `[amp_min, amp_max]`: amplitude `amp_max` maps to row 0 and amplitude
/// `amp_min` maps to row `h`.
pub open spec fn translate_amp(v: int, amp_min: int, amp_max: int, h: int) -> int {
    h - clamp_to((v - amp_min) * h / (amp_max - amp_min), h)
}

/// The byte that channel `i` of the pixel at column `x`, row `y` of the
/// rendered window holds: rows between the column's translated maximum
/// (inclusive) and translated minimum (exclusive) show the foreground
/// color, all other rows the background.
pub open spec fn rendered_byte(
    v: BinnedView,
    begin: int,
    end: int,
    w: int,
    h: int,
    x: int,
    y: int,
    i: int,
) -> u8 {
    let nb = end - begin;
    let offset = begin / v.bin_size;
    let maxt = translate_amp(
        column_max(v, nb, w, offset, x) as int,
        v.config.amp_min,
        v.config.amp_max,
        h,
    );
    let mint = translate_amp(
        column_min(v, nb, w, offset, x) as int,
        v.config.amp_min,
        v.config.amp_max,
        h,
    );
    if maxt <= y < mint {
        v.config.foreground.bytes()[i]
    } else {
        v.config.background.bytes()[i]
    }
}

/// Whether byte `k` of a buffer of full width `fullw` belongs to the
/// target rectangle of width `w` and height `h` at `(offx, offy)`.
pub open spec fn in_target(
    k: int,
    ch: int,
    fullw: int,
    offx: int,
    offy: int,
    w: int,
    h: int,
) -> bool {
    let p = k / ch;
    &&& offx <= p % fullw < offx + w
    &&& offy <= p / fullw < offy + h
}

/// Byte `k` of the buffer after rendering into the target rectangle:
/// bytes of the rectangle hold the rendered window, all others keep
/// their previous value `img0[k]`.
pub open spec fn written_byte(
    img0: Seq<u8>,
    v: BinnedView,
    begin: int,
    end: int,
    offx: int,
    offy: int,
    w: int,
    h: int,
    fullw: int,
    k: int,
) -> u8 {
    let ch = v.config.background.channels();
    if in_target(k, ch, fullw, offx, offy, w, h) {
        let p = k / ch;
        rendered_byte(v, begin, end, w, h, p % fullw - offx, p / fullw - offy, k % ch)
    } else {
        img0[k]
    }
}

/// Byte `k` of a freshly rendered buffer of exactly the window's shape.
pub open spec fn fresh_byte(v: BinnedView, begin: int, end: int, w: int, h: int, k: int) -> u8 {
    let ch = v.config.background.channels();
    let p = k / ch;
    rendered_byte(v, begin, end, w, h, p % w, p / w, k % ch)
}

/// Computes `translate_amp` without overflow: the product of the
/// amplitude offset and the height is taken in 128 bits.
fn translate_exec(v: i64, amp_min: i64, amp_max: i64, h: usize) -> (t: usize)
    requires
        amp_min < amp_max,
    ensures
        t == translate_amp(v as int, amp_min as int, amp_max as int, h as int),
        t <= h,
{
    if v <= amp_min {
        proof {
            vstd::arithmetic::mul::lemma_mul_inequality(v - amp_min, 0, h as int);
            vstd::arithmetic::div_mod::lemma_div_is_ordered(
                (v - amp_min) * h,
                0,
                amp_max - amp_min,
            );
            vstd::arithmetic::div_mod::lemma_div_of0(amp_max - amp_min);
        }
        h
    } else {
        let u: u128 = (v as i128 - amp_min as i128) as u128;
        let d: u128 = (amp_max as i128 - amp_min as i128) as u128;
        proof {
            vstd::arithmetic::mul::lemma_mul_upper_bound(
                u as int,
                u64::MAX as int,
                h as int,
                u64::MAX as int,
            );
        }
        let q: u128 = u * (h as u128) / d;
        proof {
            vstd::arithmetic::div_mod::lemma_div_pos_is_pos((u * (h as u128)) as int, d as int);
        }
        if q >= h as u128 {
            0
        } else {
            h - (q as usize)
        }
    }
}

/// Computes the floor and ceiling bins-per-pixel counts in 128 bits and
/// shows that both fit in a `usize`.
fn bins_per_pixel_exec(nb: usize, w: usize, bs: usize) -> (r: (usize, usize))
    requires
        w >= 1,
        bs >= 1,
    ensures
        r.0 == bins_per_pixel_floor(nb as int, w as int, bs as int),
        r.1 == bins_per_pixel_ceil(nb as int, w as int, bs as int),
{
    proof {
        vstd::arithmetic::mul::lemma_mul_upper_bound(
            w as int,
            u64::MAX as int,
            bs as int,
            u64::MAX as int,
        );
        vstd::arithmetic::mul::lemma_mul_strictly_positive(w as int, bs as int);
    }
    let wbs: u128 = (w as u128) * (bs as u128);
    let flr: u128 = (nb as u128) / wbs;
    let cel: u128 = ((nb as u128) + wbs - 1) / wbs;
    proof {
        vstd::arithmetic::div_mod::lemma_div_nonincreasing(nb as int, wbs as int);
        lemma_ceil_div_bounds(nb as int, wbs as int);
    }
    (flr as usize, cel as usize)
}

/// The ceiling-style quotient `(nb + d - 1) / d` exceeds `nb / d` by at
/// most one, and never exceeds `nb` itself.
proof fn lemma_ceil_div_bounds(nb: int, d: int)
    requires
        nb >= 0,
        d >= 1,
    ensures
        nb / d <= (nb + d - 1) / d <= nb / d + 1,
        (nb + d - 1) / d <= nb,
{
    let q = nb / d;
    let r = nb % d;
    vstd::arithmetic::div_mod::lemma_fundamental_div_mod(nb, d);
    if r == 0 {
        vstd::arithmetic::div_mod::lemma_fundamental_div_mod_converse(nb + d - 1, d, q, d - 1);
    } else {
        assert((q + 1) * d == q * d + d) by (nonlinear_arith);
        vstd::arithmetic::div_mod::lemma_fundamental_div_mod_converse(nb + d - 1, d, q + 1, r - 1);
    }
    if d == 1 {
        assert((nb + d - 1) / d == nb / d);
        vstd::arithmetic::div_mod::lemma_div_nonincreasing(nb, d);
    } else {
        vstd::arithmetic::div_mod::lemma_div_nonincreasing(nb, d);
        if nb >= 1 {
            vstd::arithmetic::div_mod::lemma_div_is_strictly_smaller(nb, d);
        }
    }
}

/// Decides the drift-correction comparison exactly, with a checked
/// multiplication standing in for arbitrary-precision arithmetic.
fn advance_exec(nb: usize, w: usize, bs: usize, x: usize, adv: usize, flr: usize, cel: usize) -> (r:
    usize)
    requires
        w >= 1,
        bs >= 1,
        flr == bins_per_pixel_floor(nb as int, w as int, bs as int),
        cel == bins_per_pixel_ceil(nb as int, w as int, bs as int),
    ensures
        r == advance_at(nb as int, w as int, bs as int, x as int, adv as int),
{
    if x == 0 {
        return flr;
    }
    proof {
        vstd::arithmetic::mul::lemma_mul_upper_bound(
            w as int,
            u64::MAX as int,
            bs as int,
            u64::MAX as int,
        );
        vstd::arithmetic::mul::lemma_mul_upper_bound(
            nb as int,
            u64::MAX as int,
            x as int,
            u64::MAX as int,
        );
    }
    let wbs: u128 = (w as u128) * (bs as u128);
    let rhs: u128 = (nb as u128) * (x as u128);
    let takes_ceil = match (adv as u128 + 1).checked_mul(wbs) {
        Some(lhs) => lhs < rhs,
        None => false,
    };
    if takes_ceil {
        cel
    } else {
        flr
    }
}

/// Writes one pixel of `color` at byte offset `base`, leaving every
/// other byte unchanged.
fn put_pixel(img: &mut [u8], base: usize, color: &Color, ch: usize)
    requires
        ch == color.channels(),
        base + ch <= old(img)@.len(),
    ensures
        final(img)@.len() == old(img)@.len(),
        forall|k: int|
            0 <= k < old(img)@.len() ==> final(img)@[k] == (if base <= k < base + ch {
                color.bytes()[k - base]
            } else {
                old(img)@[k]
            }),
{
    let n = img.len();
    let mut i: usize = 0;
    while i < ch
        invariant
            i <= ch,
            ch == color.channels(),
            n == img@.len(),
            base + ch <= img@.len() == old(img)@.len(),
            forall|k: int|
                0 <= k < img@.len() ==> img@[k] == (if base <= k < base + i {
                    color.bytes()[k - base]
                } else {
                    old(img)@[k]
                }),
        decreases ch - i,
    {
        let b = color.byte_at(i);
        img[base + i] = b;
        i += 1;
    }
}

/// Allocates a zero-filled byte buffer.
fn zero_bytes(n: usize) -> (v: Vec<u8>)
    ensures
        v@.len() == n,
        forall|k: int| 0 <= k < n ==> v@[k] == 0u8,
{
    let mut v: Vec<u8> = Vec::new();
    let mut i: usize = 0;
    while i < n
        invariant
            i <= n,
            v@.len() == i,
            forall|k: int| 0 <= k < i ==> v@[k] == 0u8,
        decreases n - i,
    {
        v.push(0);
        i += 1;
    }
    v
}

/// Rendering into a fresh buffer and writing into a caller-owned buffer
/// of exactly the window's shape produce identical bytes: for a target
/// rectangle at the origin that covers the whole canvas, every byte of
/// the buffer belongs to the rectangle, so the written byte never
/// depends on the buffer's previous contents.
pub proof fn lemma_write_covers_fresh(
    img0: Seq<u8>,
    v: BinnedView,
    begin: int,
    end: int,
    w: int,
    h: int,
    k: int,
)
    requires
        w >= 1,
        h >= 1,
        0 <= k < v.config.background.channels() * w * h,
    ensures
        written_byte(img0, v, begin, end, 0, 0, w, h, w, k) == fresh_byte(v, begin, end, w, h, k),
{
    let ch = v.config.background.channels();
    assert(k < ch * (w * h)) by (nonlinear_arith)
        requires
            k < ch * w * h,
    ;
    vstd::arithmetic::div_mod::lemma_mod_bound(k, ch);
    vstd::arithmetic::div_mod::lemma_mod_bound(k / ch, w);
    vstd::arithmetic::div_mod::lemma_div_pos_is_pos(k, ch);
    vstd::arithmetic::div_mod::lemma_div_pos_is_pos(k / ch, w);
    vstd::arithmetic::div_mod::lemma_multiply_divide_lt(k, ch, w * h);
    vstd::arithmetic::div_mod::lemma_multiply_divide_lt(k / ch, w, h);
}

/// Rendering is deterministic: two byte buffers that both satisfy the
/// rendering contract for one index view, window and shape are equal,
/// so repeated renders of an unmodified index produce identical bytes.
pub proof fn lemma_render_deterministic(
    b1: Seq<u8>,
    b2: Seq<u8>,
    v: BinnedView,
    begin: int,
    end: int,
    w: int,
    h: int,
)
    requires
        b1.len() == b2.len(),
        forall|k: int| 0 <= k < b1.len() ==> b1[k] == fresh_byte(v, begin, end, w, h, k),
        forall|k: int| 0 <= k < b2.len() ==> b2[k] == fresh_byte(v, begin, end, w, h, k),
    ensures
        b1 == b2,
{
    assert(b1 =~= b2);
}

/// Byte `k` after the rows `[0, ylim)` of column `x` have been filled:
/// filled rows show the foreground between the translated maximum
/// (inclusive) and the translated minimum (exclusive) and the background
/// elsewhere; all other bytes keep their value from `img0`.
spec fn col_byte_upto(
    img0: Seq<u8>,
    ch: int,
    fullw: int,
    offx: int,
    offy: int,
    x: int,
    maxt: int,
    mint: int,
    ylim: int,
    fgc: Color,
    bgc: Color,
    k: int,
) -> u8 {
    let p = k / ch;
    let row = p / fullw - offy;
    if p % fullw == offx + x && 0 <= row < ylim {
        if maxt <= row < mint {
            fgc.bytes()[k % ch]
        } else {
            bgc.bytes()[k % ch]
        }
    } else {
        img0[k]
    }
}

/// The byte range of the pixel at column `px`, row `py` lies inside a
/// buffer that holds `rows` full rows of `fullw` pixels.
proof fn lemma_pixel_base(px: int, py: int, fullw: int, rows: int, ch: int, len: int)
    by (nonlinear_arith)
    requires
        0 <= px < fullw,
        0 <= py < rows,
        1 <= ch,
        ch * fullw * rows <= len,
    ensures
        0 <= py * fullw,
        py <= py * fullw + px,
        py * fullw <= py * fullw + px,
        (py * fullw + px) <= (py * fullw + px) * ch,
        (py * fullw + px) * ch + ch <= len,
{
}

/// Recovers the column, row and channel of a pixel byte from its index.
proof fn lemma_pixel_index(px: int, py: int, fullw: int, ch: int, i: int)
    requires
        0 <= px < fullw,
        0 <= py,
        1 <= ch,
        0 <= i < ch,
    ensures
        ({
            let k = (py * fullw + px) * ch + i;
            &&& k / ch == py * fullw + px
            &&& k % ch == i
            &&& (k / ch) % fullw == px
            &&& (k / ch) / fullw == py
        }),
{
    let p = py * fullw + px;
    vstd::arithmetic::mul::lemma_mul_nonnegative(py, fullw);
    vstd::arithmetic::div_mod::lemma_fundamental_div_mod_converse(p * ch + i, ch, p, i);
    vstd::arithmetic::div_mod::lemma_fundamental_div_mod_converse(p, fullw, py, px);
}

/// Writing the pixel of row `y` in column `x` extends the filled rows
/// from `[0, ylim)` to `[0, max(ylim, y + 1))`.
proof fn lemma_fill_step(
    img0: Seq<u8>,
    prev: Seq<u8>,
    cur: Seq<u8>,
    ch: int,
    fullw: int,
    offx: int,
    offy: int,
    x: int,
    maxt: int,
    mint: int,
    fgc: Color,
    bgc: Color,
    ylim: int,
    y: int,
    c: Color,
)
    requires
        1 <= ch,
        1 <= fullw,
        0 <= offx + x < fullw,
        0 <= offy,
        0 <= y <= ylim,
        ch == fgc.channels(),
        ch == bgc.channels(),
        c == (if maxt <= y < mint {
            fgc
        } else {
            bgc
        }),
        prev.len() == img0.len(),
        cur.len() == img0.len(),
        ((offy + y) * fullw + offx + x) * ch + ch <= img0.len(),
        forall|k: int|
            0 <= k < img0.len() ==> prev[k] == col_byte_upto(
                img0,
                ch,
                fullw,
                offx,
                offy,
                x,
                maxt,
                mint,
                ylim,
                fgc,
                bgc,
                k,
            ),
        forall|k: int|
            0 <= k < img0.len() ==> cur[k] == (if ((offy + y) * fullw + offx + x) * ch <= k < ((
            offy + y) * fullw + offx + x) * ch + ch {
                c.bytes()[k - ((offy + y) * fullw + offx + x) * ch]
            } else {
                prev[k]
            }),
    ensures
        forall|k: int|
            0 <= k < img0.len() ==> cur[k] == col_byte_upto(
                img0,
                ch,
                fullw,
                offx,
                offy,
                x,
                maxt,
                mint,
                if ylim >= y + 1 {
                    ylim
                } else {
                    y + 1
                },
                fgc,
                bgc,
                k,
            ),
{
    let base = ((offy + y) * fullw + offx + x) * ch;
    let new_ylim = if ylim >= y + 1 {
        ylim
    } else {
        y + 1
    };
    assert forall|k: int| 0 <= k < img0.len() implies cur[k] == col_byte_upto(
        img0,
        ch,
        fullw,
        offx,
        offy,
        x,
        maxt,
        mint,
        new_ylim,
        fgc,
        bgc,
        k,
    ) by {
        vstd::arithmetic::div_mod::lemma_fundamental_div_mod(k, ch);
        vstd::arithmetic::div_mod::lemma_mod_bound(k, ch);
        vstd::arithmetic::div_mod::lemma_fundamental_div_mod(k / ch, fullw);
        vstd::arithmetic::div_mod::lemma_mod_bound(k / ch, fullw);
        let p = k / ch;
        let col = p % fullw;
        let row = p / fullw;
        if base <= k < base + ch {
            lemma_pixel_index(offx + x, offy + y, fullw, ch, k - base);
            assert(col == offx + x && row == offy + y && k % ch == k - base);
        } else {
            assert(cur[k] == prev[k]);
            if col == offx + x && row == offy + y {
                assert(p == (offy + y) * fullw + offx + x) by (nonlinear_arith)
                    requires
                        p == fullw * (p / fullw) + p % fullw,
                        col == p % fullw,
                        row == p / fullw,
                        col == offx + x,
                        row == offy + y,
                ;
                assert(k == p * ch + k % ch) by (nonlinear_arith)
                    requires
                        k == ch * (k / ch) + k % ch,
                        p == k / ch,
                ;
                assert(false);
            }
        }
    }
}

/// Fills every row of column `x` of the target rectangle with three
/// bounded segment fills: background above the translated maximum,
/// foreground between the translated boundaries, background below the
/// translated minimum. One color decision is made per segment, not per
/// pixel.
#[verifier::loop_isolation(false)]
fn fill_column(
    img: &mut [u8],
    fullw: usize,
    ch: usize,
    offx: usize,
    offy: usize,
    x: usize,
    h: usize,
    maxt: usize,
    mint: usize,
    fg: &Color,
    bg: &Color,
)
    requires
        maxt <= h,
        mint <= h,
        ch == fg.channels(),
        ch == bg.channels(),
        offx + x < fullw,
        ch * fullw * (offy + h) <= old(img)@.len(),
    ensures
        final(img)@.len() == old(img)@.len(),
        forall|k: int|
            0 <= k < old(img)@.len() ==> final(img)@[k] == col_byte_upto(
                old(img)@,
                ch as int,
                fullw as int,
                offx as int,
                offy as int,
                x as int,
                maxt as int,
                mint as int,
                h as int,
                *fg,
                *bg,
                k,
            ),
{
    let ghost img0 = img@;
    let n = img.len();
    let mut y: usize = 0;
    while y < maxt
        invariant
            y <= maxt,
            n == img0.len(),
            img@.len() == img0.len(),
            forall|k: int|
                0 <= k < img0.len() ==> img@[k] == col_byte_upto(
                    img0,
                    ch as int,
                    fullw as int,
                    offx as int,
                    offy as int,
                    x as int,
                    maxt as int,
                    mint as int,
                    y as int,
                    *fg,
                    *bg,
                    k,
                ),
        decreases maxt - y,
    {
        proof {
            lemma_pixel_base(
                offx + x,
                offy + y,
                fullw as int,
                offy + h,
                ch as int,
                img0.len() as int,
            );
        }
        let ghost prev = img@;
        let base = ((offy + y) * fullw + (offx + x)) * ch;
        put_pixel(img, base, bg, ch);
        proof {
            lemma_fill_step(
                img0,
                prev,
                img@,
                ch as int,
                fullw as int,
                offx as int,
                offy as int,
                x as int,
                maxt as int,
                mint as int,
                *fg,
                *bg,
                y as int,
                y as int,
                *bg,
            );
        }
        y += 1;
    }
    while y < mint
        invariant
            maxt <= y <= mint || y == maxt,
            y <= h,
            img@.len() == img0.len(),
            forall|k: int|
                0 <= k < img0.len() ==> img@[k] == col_byte_upto(
                    img0,
                    ch as int,
                    fullw as int,
                    offx as int,
                    offy as int,
                    x as int,
                    maxt as int,
                    mint as int,
                    y as int,
                    *fg,
                    *bg,
                    k,
                ),
        decreases mint - y,
    {
        proof {
            lemma_pixel_base(
                offx + x,
                offy + y,
                fullw as int,
                offy + h,
                ch as int,
                img0.len() as int,
            );
        }
        let ghost prev = img@;
        let base = ((offy + y) * fullw + (offx + x)) * ch;
        put_pixel(img, base, fg, ch);
        proof {
            lemma_fill_step(
                img0,
                prev,
                img@,
                ch as int,
                fullw as int,
                offx as int,
                offy as int,
                x as int,
                maxt as int,
                mint as int,
                *fg,
                *bg,
                y as int,
                y as int,
                *fg,
            );
        }
        y += 1;
    }
    let mut y2: usize = mint;
    while y2 < h
        invariant
            mint <= y2 <= h || y2 == h,
            y2 <= h,
            img@.len() == img0.len(),
            forall|k: int|
                0 <= k < img0.len() ==> img@[k] == col_byte_upto(
                    img0,
                    ch as int,
                    fullw as int,
                    offx as int,
                    offy as int,
                    x as int,
                    maxt as int,
                    mint as int,
                    if maxt as int >= y2 as int {
                        maxt as int
                    } else {
                        y2 as int
                    },
                    *fg,
                    *bg,
                    k,
                ),
        decreases h - y2,
    {
        proof {
            lemma_pixel_base(
                offx + x,
                offy + y2,
                fullw as int,
                offy + h,
                ch as int,
                img0.len() as int,
            );
        }
        let ghost prev = img@;
        let base = ((offy + y2) * fullw + (offx + x)) * ch;
        put_pixel(img, base, bg, ch);
        proof {
            lemma_fill_step(
                img0,
                prev,
                img@,
                ch as int,
                fullw as int,
                offx as int,
                offy as int,
                x as int,
                maxt as int,
                mint as int,
                *fg,
                *bg,
                if maxt as int >= y2 as int {
                    maxt as int
                } else {
                    y2 as int
                },
                y2 as int,
                *bg,
            );
        }
        y2 += 1;
    }
}

/// A full table of `w` floor-plus-one advances stays within
/// `nb / bs + w` bins.
proof fn lemma_table_slack(nb: int, w: int, bs: int)
    requires
        nb >= 0,
        w >= 1,
        bs >= 1,
    ensures
        w * (bins_per_pixel_floor(nb, w, bs) + 1) <= nb / bs + w,
{
    let flr = bins_per_pixel_floor(nb, w, bs);
    vstd::arithmetic::mul::lemma_mul_strictly_positive(w, bs);
    vstd::arithmetic::div_mod::lemma_div_denominator(nb, bs, w);
    assert(w * (flr + 1) == w * flr + w) by (nonlinear_arith);
    vstd::arithmetic::div_mod::lemma_fundamental_div_mod(nb / bs, w);
    vstd::arithmetic::div_mod::lemma_mod_bound(nb / bs, w);
}

/// Bin count law: binning `amps` with a valid `bin_size` yields exactly
/// `floor(amps.len() / bin_size)` pairs.
pub proof fn lemma_bin_count(amps: Seq<i64>, bin_size: int)
    requires
        1 <= bin_size,
    ensures
        binned_pairs(amps, bin_size).len() == amps.len() as int / bin_size,
{
    vstd::arithmetic::div_mod::lemma_div_pos_is_pos(amps.len() as int, bin_size);
}

/// The window minimum lies at or below every entry of the window.
pub proof fn lemma_window_min_le(s: Seq<i64>, from: int, to: int, i: int)
    requires
        from <= i < to,
    ensures
        window_min(s, from, to) <= s[i],
    decreases to - from,
{
    if to > from + 1 && i < to - 1 {
        lemma_window_min_le(s, from, to - 1, i);
    }
}

/// The window maximum lies at or above every entry of the window.
pub proof fn lemma_window_max_ge(s: Seq<i64>, from: int, to: int, i: int)
    requires
        from <= i < to,
    ensures
        window_max(s, from, to) >= s[i],
    decreases to - from,
{
    if to > from + 1 && i < to - 1 {
        lemma_window_max_ge(s, from, to - 1, i);
    }
}

/// Min/max containment: every bin's minimum lies at or below every
/// sample amplitude in its window, and its maximum at or above.
pub proof fn lemma_bin_envelope_contains(amps: Seq<i64>, bin_size: int, k: int, i: int)
    requires
        1 <= bin_size,
        0 <= k < binned_pairs(amps, bin_size).len(),
        k * bin_size <= i < k * bin_size + bin_size,
    ensures
        binned_pairs(amps, bin_size)[k].0 <= amps[i],
        amps[i] <= binned_pairs(amps, bin_size)[k].1,
{
    lemma_window_min_le(amps, k * bin_size, k * bin_size + bin_size, i);
    lemma_window_max_ge(amps, k * bin_size, k * bin_size + bin_size, i);
}

/// Every full window of bin `x` lies inside the sample array.
proof fn lemma_bin_window_in_bounds(n: int, bs: int, x: int)
    requires
        1 <= bs <= n,
        0 <= x < n / bs,
    ensures
        0 <= x * bs,
        x * bs + bs <= n,
{
    vstd::arithmetic::mul::lemma_mul_nonnegative(x, bs);
    assert((x + 1) * bs == x * bs + bs) by (nonlinear_arith);
    vstd::arithmetic::mul::lemma_mul_inequality(x + 1, n / bs, bs);
    vstd::arithmetic::div_mod::lemma_fundamental_div_mod(n, bs);
    vstd::arithmetic::div_mod::lemma_remainder_lower(n, bs);
    assert((n / bs) * bs <= n);
}

} // verus!
