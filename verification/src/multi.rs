//! A renderer that contains multiple `BinnedWaveformRenderer`s
//! with different bin sizes.

use vstd::prelude::*;
use vstd::string::StringExecFns;
use crate::binned::{binned_view, BinnedView, BinnedWaveformRenderer};
use crate::error::InvalidSizeError;
use crate::misc::{Sample, SampleSequence, TimeRange, WaveformConfig};

verus! {

/// The mathematical content of a `MultiWaveformRenderer`: the shared
/// sample rate and the held binned indexes, as pairs of a bin size and
/// the index's view, ordered by bin size.
pub struct MultiView {
    pub sample_rate: int,
    pub entries: Seq<(int, BinnedView)>,
}

/// A renderer that contains multiple `BinnedWaveformRenderer`s
/// with different bin sizes.
///
/// It will automatically choose an apropriate bin size each time
/// it renders.
pub struct MultiWaveformRenderer<T: Sample> {
    pub binned: Vec<(usize, BinnedWaveformRenderer<T>)>,
    sample_rate: u64,
}

impl<T: Sample> View for MultiWaveformRenderer<T> {
    type V = MultiView;

    closed spec fn view(&self) -> MultiView {
        MultiView {
            sample_rate: self.sample_rate as int,
            entries: self.binned@.map_values(
                |p: (usize, BinnedWaveformRenderer<T>)| (p.0 as int, p.1@),
            ),
        }
    }
}

/// Entry `i` holds the optimal bin size for an average of `nb / w`
/// samples per pixel column: the largest bin size that does not exceed
/// that average, or the smallest held bin size when every one exceeds
/// it.
pub open spec fn optimal_entry(entries: Seq<(int, BinnedView)>, i: int, nb: int, w: int) -> bool {
    &&& 0 <= i < entries.len()
    &&& forall|j: int|
        0 <= j < entries.len() && (#[trigger] entries[j]).0 * w <= nb ==> entries[j].0
            <= entries[i].0
    &&& entries[i].0 * w <= nb || entries[i].0 == entries[0].0
}

impl<T: Sample> MultiWaveformRenderer<T> {
    /// A selector is well formed when its entries are sorted by strictly
    /// increasing bin size and each entry holds a well-formed binned
    /// index of that bin size, built at the shared sample rate. Direct
    /// writes to the public `binned` field must keep this shape.
    pub open spec fn wf(self) -> bool {
        &&& forall|i: int, j: int|
            0 <= i < j < self@.entries.len() ==> (#[trigger] self@.entries[i]).0 < (
            #[trigger] self@.entries[j]).0
        &&& forall|i: int|
            0 <= i < self@.entries.len() ==> (#[trigger] self@.entries[i]).1.wf()
                && self@.entries[i].1.bin_size == self@.entries[i].0
                && self@.entries[i].1.sample_rate == self@.sample_rate
    }

    /// The constructor.
    ///
    /// A binned index is built for every requested bin size; the call
    /// fails with an `InvalidSizeError` exactly when some requested bin
    /// size is zero or exceeds the sample count. Repeated bin sizes are
    /// kept once.
    ///
    /// # Arguments
    ///
    /// * `samples` - The samples that will be used to calculate binned min / max values.
    ///               It must also contain the sample rate that is used by
    ///               `BinnedWaveformRenderer` to render images when given a
    ///               `TimeRange::Seconds`.
    /// * `bin_sizes` - The sizes of the bins which the min / max values will be binned
    ///                into.
    /// * `config` - See `WaveformConfig`.
    #[verifier::loop_isolation(false)]
    pub fn new(samples: &SampleSequence<T>, bin_sizes: &Vec<usize>, config: WaveformConfig) -> (r:
        Result<Self, InvalidSizeError>)
        requires
            config.wf(),
        ensures
            r is Ok <==> forall|j: int|
                0 <= j < bin_sizes@.len() ==> 1 <= #[trigger] bin_sizes@[j]
                    <= samples.data@.len(),
            r matches Err(e) ==> e.var_name@ == "bin_size"@,
            r matches Ok(m) ==> m.wf() && m@.sample_rate == samples.sample_rate && (forall|i: int|
                0 <= i < m@.entries.len() ==> key_among(
                    bin_sizes@,
                    (#[trigger] m@.entries[i]).0,
                )) && (forall|j: int|
                0 <= j < bin_sizes@.len() ==> holds_key(
                    m@.entries,
                    #[trigger] bin_sizes@[j] as int,
                )) && (forall|i: int|
                0 <= i < m@.entries.len() ==> (#[trigger] m@.entries[i]).1 == binned_view(
                    samples.amps(),
                    samples.sample_rate as int,
                    m@.entries[i].0,
                    config@,
                )),
    {
        let mut r = MultiWaveformRenderer {
            binned: Vec::<(usize, BinnedWaveformRenderer<T>)>::new(),
            sample_rate: samples.sample_rate,
        };
        let mut idx: usize = 0;

        while idx < bin_sizes.len()
            invariant
                idx <= bin_sizes@.len(),
                r.wf(),
                r@.sample_rate == samples.sample_rate,
                forall|j: int| 0 <= j < idx ==> 1 <= #[trigger] bin_sizes@[j] <= samples.data@.len(),
                forall|i: int|
                    0 <= i < r@.entries.len() ==> key_among(
                        bin_sizes@,
                        (#[trigger] r@.entries[i]).0,
                    ),
                forall|j: int|
                    0 <= j < idx ==> holds_key(r@.entries, #[trigger] bin_sizes@[j] as int),
                forall|i: int|
                    0 <= i < r@.entries.len() ==> (#[trigger] r@.entries[i]).1 == binned_view(
                        samples.amps(),
                        samples.sample_rate as int,
                        r@.entries[i].0,
                        config@,
                    ),
            decreases bin_sizes@.len() - idx,
        {
            let bs = bin_sizes[idx];
            let w = match BinnedWaveformRenderer::new(samples, bs, config) {
                Ok(w) => w,
                Err(e) => {
                    proof {
                        assert(!(1 <= bin_sizes@[idx as int] <= samples.data@.len()));
                    }
                    return Err(e);
                },
            };
            let ghost before = r@.entries;
            r.insert_sorted(bs, w);
            proof {
                assert(bin_sizes@[idx as int] == bs);
                assert(key_among(bin_sizes@, bs as int));
                assert forall|i: int| 0 <= i < r@.entries.len() implies key_among(
                    bin_sizes@,
                    (#[trigger] r@.entries[i]).0,
                ) by {
                    if r@.entries[i] != (bs as int, w@) {
                        let i0 = choose|i0: int|
                            0 <= i0 < before.len() && #[trigger] before[i0] == r@.entries[i];
                        assert(key_among(bin_sizes@, before[i0].0));
                    }
                }
                assert forall|i: int| 0 <= i < r@.entries.len() implies (
                #[trigger] r@.entries[i]).1 == binned_view(
                    samples.amps(),
                    samples.sample_rate as int,
                    r@.entries[i].0,
                    config@,
                ) by {
                    if r@.entries[i] != (bs as int, w@) {
                        let i0 = choose|i0: int|
                            0 <= i0 < before.len() && #[trigger] before[i0] == r@.entries[i];
                        assert(before[i0].1 == binned_view(
                            samples.amps(),
                            samples.sample_rate as int,
                            before[i0].0,
                            config@,
                        ));
                    }
                }
                assert forall|j: int| 0 <= j <= idx implies holds_key(
                    r@.entries,
                    #[trigger] bin_sizes@[j] as int,
                ) by {
                    if j < idx {
                        let i0 = choose|i0: int|
                            0 <= i0 < before.len() && (#[trigger] before[i0]).0 == bin_sizes@[j];
                        assert(holds_entry(r@.entries, before[i0]));
                        let i1 = choose|i1: int|
                            0 <= i1 < r@.entries.len() && #[trigger] r@.entries[i1] == before[i0];
                        assert((r@.entries[i1]).0 == bin_sizes@[j]);
                    }
                }
            }
            idx += 1;
        }
        Ok(r)
    }

    /// Inserts a binned index under its bin size, keeping the entries
    /// sorted; a bin size that is already held is left as it is.
    fn insert_sorted(&mut self, bs: usize, w: BinnedWaveformRenderer<T>)
        requires
            old(self).wf(),
            w@.wf(),
            w@.bin_size == bs,
            w@.sample_rate == old(self)@.sample_rate,
        ensures
            final(self).wf(),
            final(self)@.sample_rate == old(self)@.sample_rate,
            forall|i: int|
                0 <= i < final(self)@.entries.len() ==> (#[trigger] final(self)@.entries[i]) == (
                bs as int,
                w@,
            ) || exists|i0: int|
                    0 <= i0 < old(self)@.entries.len() && (#[trigger] old(self)@.entries[i0])
                        == final(self)@.entries[i],
            forall|i0: int|
                0 <= i0 < old(self)@.entries.len() ==> holds_entry(
                    final(self)@.entries,
                    #[trigger] old(self)@.entries[i0],
                ),
            holds_key(final(self)@.entries, bs as int),
    {
        let len = self.binned.len();
        let mut pos: usize = 0;
        while pos < len && self.binned[pos].0 < bs
            invariant
                pos <= len == self@.entries.len(),
                self == old(self),
                forall|j: int| 0 <= j < pos ==> (#[trigger] self@.entries[j]).0 < bs,
            decreases len - pos,
        {
            pos += 1;
        }
        if pos < len && self.binned[pos].0 == bs {
            proof {
                assert(self@.entries[pos as int].0 == bs);
            }
            return ;
        }
        proof {
            assert(pos < len ==> self@.entries[pos as int].0 > bs);
        }
        self.binned.insert(pos, (bs, w));
        proof {
            let oldv = old(self)@.entries;
            let newv = self@.entries;
            assert(newv =~= oldv.insert(pos as int, (bs as int, w@)));
            assert(newv[pos as int] == (bs as int, w@));
            assert forall|i: int, j: int| 0 <= i < j < newv.len() implies (#[trigger] newv[i]).0 < (
            #[trigger] newv[j]).0 by {
                if i < pos && j > pos {
                    assert(oldv[i] == newv[i]);
                    assert(oldv[j - 1] == newv[j]);
                } else if i == pos && j > pos {
                    assert(oldv[j - 1] == newv[j]);
                } else if j == pos && i < pos {
                    assert(oldv[i] == newv[i]);
                }
            }
            assert forall|i0: int| 0 <= i0 < oldv.len() implies holds_entry(
                newv,
                #[trigger] oldv[i0],
            ) by {
                if i0 < pos {
                    assert(newv[i0] == oldv[i0]);
                } else {
                    assert(newv[i0 + 1] == oldv[i0]);
                }
            }
            assert forall|i: int| 0 <= i < newv.len() implies (#[trigger] newv[i]) == (
            bs as int,
            w@,
            ) || exists|i0: int| 0 <= i0 < oldv.len() && (#[trigger] oldv[i0]) == newv[i] by {
                if i < pos {
                    assert(oldv[i] == newv[i]);
                } else if i > pos {
                    assert(oldv[i - 1] == newv[i]);
                }
            }
        }
    }

    /// Picks the largest held bin size that is at most `nb_samples /
    /// width` (the average number of samples one pixel column covers),
    /// falling back to the smallest held bin size; `None` exactly when
    /// no binned index is held.
    pub fn get_optimal_bin_size(&self, nb_samples: usize, width: usize) -> (r: Option<usize>)
        requires
            self.wf(),
        ensures
            r is None <==> self@.entries.len() == 0,
            r matches Some(b) ==> optimal_entry_of(self@.entries, b as int, nb_samples as int,
                width as int),
    {
        let len = self.binned.len();
        if len == 0 {
            return None;
        }
        let mut best = self.binned[0].0;
        let mut i: usize = 0;
        while i < len
            invariant
                self.wf(),
                i <= len == self@.entries.len(),
                best == self@.entries[0].0 || exists|j: int|
                    0 <= j < i && (#[trigger] self@.entries[j]).0 == best,
                best as int * width as int <= nb_samples as int || best == self@.entries[0].0,
                forall|j: int|
                    0 <= j < i && (#[trigger] self@.entries[j]).0 * width <= nb_samples
                        ==> self@.entries[j].0 <= best,
            decreases len - i,
        {
            let bs = self.binned[i].0;
            proof {
                vstd::arithmetic::mul::lemma_mul_upper_bound(
                    bs as int,
                    u64::MAX as int,
                    width as int,
                    u64::MAX as int,
                );
            }
            let fits = (bs as u128) * (width as u128) <= nb_samples as u128;
            if fits {
                proof {
                    assert forall|j: int|
                        0 <= j < i + 1 && (#[trigger] self@.entries[j]).0 * width
                            <= nb_samples implies self@.entries[j].0 <= bs as int by {
                        if j < i {
                            assert(self@.entries[j].0 < self@.entries[i as int].0);
                        }
                    }
                }
                best = bs;
            }
            i += 1;
        }
        Some(best)
    }

    /// Renders an image as a `Vec<u8>`, delegating to the held binned
    /// index whose bin size best matches the requested window and width.
    ///
    /// `None` will be returned if the area of the specified `shape` is
    /// equal to zero, or if no binned index is held.
    ///
    /// # Arguments
    ///
    /// * `range` - The samples within this `TimeRange` will be rendered.
    /// * `shape` - The `(width, height)` of the resulting image in pixels.
    pub fn render_vec(&self, range: TimeRange, shape: (usize, usize)) -> (r: Option<Vec<u8>>)
        requires
            self.wf(),
            range.valid(),
            shape.0 * shape.1 * 4 <= usize::MAX,
        ensures
            r is Some <==> shape.0 > 0 && shape.1 > 0 && self@.entries.len() > 0,
            r matches Some(img) ==> exists|i: int|
                #![trigger self@.entries[i]]
                optimal_entry(
                    self@.entries,
                    i,
                    range.spec_sample_bounds(self@.sample_rate).1 - range.spec_sample_bounds(
                        self@.sample_rate,
                    ).0,
                    shape.0 as int,
                ) && img@.len() == shape.0 * shape.1
                    * self@.entries[i].1.config.background.channels() && (forall|k: int|
                    0 <= k < img@.len() ==> img@[k] == crate::binned::fresh_byte(
                        self@.entries[i].1,
                        range.spec_sample_bounds(self@.sample_rate).0,
                        range.spec_sample_bounds(self@.sample_rate).1,
                        shape.0 as int,
                        shape.1 as int,
                        k,
                    )),
    {
        let (w, h) = shape;
        if w == 0 || h == 0 {
            return None;
        }
        let (begin, end) = range.to_sample_tuple(self.sample_rate);
        let nb = end - begin;
        match self.get_optimal_bin_size(nb, w) {
            None => None,
            Some(bs) => {
                let ghost i1 = choose|i: int|
                    optimal_entry(self@.entries, i, nb as int, w as int) && (
                    #[trigger] self@.entries[i]).0 == bs;
                let wr = match self.get_binned(bs) {
                    Some(wr) => wr,
                    None => {
                        proof {
                            assert(false);
                        }
                        return None;
                    },
                };
                proof {
                    let i2 = choose|i: int|
                        0 <= i < self@.entries.len() && (#[trigger] self@.entries[i]).0 == bs
                            && wr@ == self@.entries[i].1;
                    assert(i1 == i2);
                    vstd::arithmetic::mul::lemma_mul_strictly_positive(w as int, h as int);
                    vstd::arithmetic::mul::lemma_mul_left_inequality(
                        w as int * h as int,
                        wr@.config.background.channels(),
                        4,
                    );
                    assert(w as int * h as int * wr@.config.background.channels() == w as int * (
                    h as int * wr@.config.background.channels())) by (nonlinear_arith);
                    assert(w as int * h as int * 4 == w as int * (h as int * 4))
                        by (nonlinear_arith);
                    assert(w as int * (h as int * wr@.config.background.channels()) <= w as int * (
                    h as int * 4)) by (nonlinear_arith)
                        requires
                            h as int * wr@.config.background.channels() <= h as int * 4,
                            w as int >= 1,
                    ;
                    assert(h as int * wr@.config.background.channels() <= h as int * 4)
                        by (nonlinear_arith)
                        requires
                            wr@.config.background.channels() <= 4,
                            h as int >= 1,
                    ;
                }
                wr.render_vec(range, shape)
            },
        }
    }

    /// Writes the image into a mutable reference to a slice, delegating
    /// to the held binned index whose bin size best matches the
    /// requested window and width.
    ///
    /// It will return an `InvalidSizeError` if no binned index is held,
    /// or if the delegate rejects the sizes; see
    /// `BinnedWaveformRenderer::render_write`.
    ///
    /// # Arguments
    ///
    /// * `range` - The samples within this `TimeRange` will be rendered.
    /// * `offsets` - The `(x-offset, y-offset)` of the part of the `img` that is
    ///               going to be overwritten in pixels.
    /// * `shape` - The `(width, height)` of the part of the `img` that is going
    ///             to be overwritten in pixels.
    /// * `img`   - A mutable reference to the slice to write the result into.
    /// * `full_shape` - The `(width, height)` of the whole `img` in pixels.
    pub fn render_write(
        &self,
        range: TimeRange,
        offsets: (usize, usize),
        shape: (usize, usize),
        img: &mut [u8],
        full_shape: (usize, usize),
    ) -> (r: Result<(), InvalidSizeError>)
        requires
            self.wf(),
            range.valid(),
        ensures
            final(img)@.len() == old(img)@.len(),
            r is Err ==> final(img)@ == old(img)@,
            self@.entries.len() == 0 ==> (r matches Err(e) && e.var_name@ == "bin sizes"@),
            self@.entries.len() > 0 ==> exists|i: int|
                #![trigger self@.entries[i]]
                optimal_entry(
                    self@.entries,
                    i,
                    range.spec_sample_bounds(self@.sample_rate).1 - range.spec_sample_bounds(
                        self@.sample_rate,
                    ).0,
                    shape.0 as int,
                ) && (r is Ok <==> shape.0 > 0 && shape.1 > 0 && offsets.0 + shape.0
                    <= full_shape.0 && offsets.1 + shape.1 <= full_shape.1
                    && self@.entries[i].1.config.background.channels() * full_shape.0
                    * full_shape.1 <= old(img)@.len()) && (r is Ok ==> forall|k: int|
                    0 <= k < old(img)@.len() ==> final(img)@[k] == crate::binned::written_byte(
                        old(img)@,
                        self@.entries[i].1,
                        range.spec_sample_bounds(self@.sample_rate).0,
                        range.spec_sample_bounds(self@.sample_rate).1,
                        offsets.0 as int,
                        offsets.1 as int,
                        shape.0 as int,
                        shape.1 as int,
                        full_shape.0 as int,
                        k,
                    )),
    {
        let (begin, end) = range.to_sample_tuple(self.sample_rate);
        let nb = end - begin;
        match self.get_optimal_bin_size(nb, shape.0) {
            None => Err(InvalidSizeError { var_name: String::from_str("bin sizes") }),
            Some(bs) => {
                let ghost i1 = choose|i: int|
                    optimal_entry(self@.entries, i, nb as int, shape.0 as int) && (
                    #[trigger] self@.entries[i]).0 == bs;
                let wr = match self.get_binned(bs) {
                    Some(wr) => wr,
                    None => {
                        proof {
                            assert(false);
                        }
                        return Err(InvalidSizeError { var_name: String::from_str("bin sizes") });
                    },
                };
                proof {
                    let i2 = choose|i: int|
                        0 <= i < self@.entries.len() && (#[trigger] self@.entries[i]).0 == bs
                            && wr@ == self@.entries[i].1;
                    assert(i1 == i2);
                }
                wr.render_write(range, offsets, shape, img, full_shape)
            },
        }
    }

    /// Returns the held binned index with the given bin size, if any.
    pub fn get_binned(&self, bin_size: usize) -> (r: Option<&BinnedWaveformRenderer<T>>)
        ensures
            r is Some <==> exists|i: int|
                0 <= i < self@.entries.len() && (#[trigger] self@.entries[i]).0 == bin_size,
            r matches Some(b) ==> exists|i: int|
                0 <= i < self@.entries.len() && (#[trigger] self@.entries[i]).0 == bin_size
                    && b@ == self@.entries[i].1,
    {
        let len = self.binned.len();
        let mut i: usize = 0;
        while i < len
            invariant
                i <= len == self@.entries.len(),
                forall|j: int| 0 <= j < i ==> (#[trigger] self@.entries[j]).0 != bin_size,
            decreases len - i,
        {
            if self.binned[i].0 == bin_size {
                proof {
                    assert(self@.entries[i as int].0 == bin_size);
                }
                return Some(&self.binned[i].1);
            }
            i += 1;
        }
        None
    }
}

/// Resolution selection is monotone: for one selector, a window that
/// averages at least as many samples per pixel column never selects a
/// finer bin size.
pub proof fn lemma_selection_monotonic(
    entries: Seq<(int, BinnedView)>,
    i1: int,
    i2: int,
    nb1: int,
    nb2: int,
    w: int,
)
    requires
        forall|i: int, j: int|
            0 <= i < j < entries.len() ==> (#[trigger] entries[i]).0 < (#[trigger] entries[j]).0,
        optimal_entry(entries, i1, nb1, w),
        optimal_entry(entries, i2, nb2, w),
        nb1 <= nb2,
    ensures
        entries[i1].0 <= entries[i2].0,
{
    if entries[i1].0 * w <= nb1 {
        assert(entries[i1].0 * w <= nb2);
    } else {
        if i2 > 0 {
            assert(entries[0].0 < entries[i2].0);
        }
    }
}

/// Some entry of `entries` equals `e`.
pub open spec fn holds_entry(entries: Seq<(int, BinnedView)>, e: (int, BinnedView)) -> bool {
    exists|i: int| 0 <= i < entries.len() && #[trigger] entries[i] == e
}

/// Some entry of `entries` carries the bin size `b`.
pub open spec fn holds_key(entries: Seq<(int, BinnedView)>, b: int) -> bool {
    exists|i: int| 0 <= i < entries.len() && (#[trigger] entries[i]).0 == b
}

/// The bin size `b` occurs among the requested sizes.
pub open spec fn key_among(sizes: Seq<usize>, b: int) -> bool {
    exists|j: int| 0 <= j < sizes.len() && #[trigger] sizes[j] == b
}

/// The bin size `b` is held by some entry that is optimal for the given
/// window; see `optimal_entry`.
pub open spec fn optimal_entry_of(entries: Seq<(int, BinnedView)>, b: int, nb: int, w: int) -> bool {
    exists|i: int| optimal_entry(entries, i, nb, w) && (#[trigger] entries[i]).0 == b
}

} // verus!
