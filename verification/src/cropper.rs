use vstd::prelude::*;

use crate::buffer::{extract, lemma_region_channels_whole, region_channels, PixelBuffer};
use crate::region::{enumerate, region_fits, spec_regions, Region};
use crate::scorer::{region_scores, score_region};
use crate::select::{lemma_select_membership, select_best, spec_select};

verus! {

/// Why a crop request was refused.
#[derive(Clone, Copy, PartialEq, Eq, Structural, Debug)]
pub enum CropError {
    /// The target exceeds the original in width or height.
    SizeTooLarge,
    /// The target width or height is zero.
    DegenerateTarget,
}

/// The region the selector starts from: origin zero with the target
/// dimensions. It survives when no candidate scores above zero.
pub open spec fn fallback_region(w: u32, h: u32) -> Region {
    Region { x: 0, y: 0, width: w, height: h }
}

/// The square crop's derived target extent: the smaller of the two original
/// dimensions.
pub open spec fn square_size(b: PixelBuffer) -> u32 {
    if b.width <= b.height {
        b.width
    } else {
        b.height
    }
}

/// The region a crop of `orig` to `w` by `h` settles on: the selector's pick
/// among the enumerated candidates, each scored by the entropy of its channel
/// bytes, with the fallback region surviving when no candidate scores above
/// zero.
pub open spec fn selected_region(orig: PixelBuffer, w: u32, h: u32) -> Region {
    spec_select(
        spec_regions(orig.width, orig.height, w, h),
        region_scores(orig, spec_regions(orig.width, orig.height, w, h)),
        fallback_region(w, h),
    )
}

/// What a successful crop of `orig` to `w` by `h` leaves behind: exactly the
/// extraction of the selected region.
pub open spec fn cropped_ok(
    orig: PixelBuffer,
    cropped: Option<PixelBuffer>,
    w: u32,
    h: u32,
) -> bool {
    cropped matches Some(c) && c.wf() && c.width == w && c.height == h && c.data@
        == region_channels(orig, selected_region(orig, w, h))
}

/// Content-aware cropping of one source image: `original` is the decoded
/// source, `cropped` the result of the latest successful crop.
pub struct SmartCropper {
    pub original: PixelBuffer,
    pub cropped: Option<PixelBuffer>,
}

impl SmartCropper {
    /// The ordered candidate windows for the given original and target
    /// dimensions, each lying fully inside the original.
    pub fn regions(original: (u32, u32), target: (u32, u32)) -> (rs: Vec<Region>)
        requires
            1 <= target.0,
            1 <= target.1,
        ensures
            rs@ == spec_regions(original.0, original.1, target.0, target.1),
            forall|k: int| #![trigger rs@[k]]
                0 <= k < rs@.len() ==> rs@[k].width == target.0 && rs@[k].height == target.1
                    && region_fits(rs@[k], original.0, original.1),
    {
        enumerate(original.0, original.1, target.0, target.1)
    }

    /// Scores every candidate window in order and returns the selector's
    /// pick: the first candidate of each strict score improvement over the
    /// zero baseline, or the fallback region at the origin when no candidate
    /// beats zero. On an exact-fit target the pick is the whole image.
    #[verifier::loop_isolation(false)]
    pub fn find_interesting_region(&self, width: u32, height: u32) -> (r: Region)
        requires
            self.original.wf(),
            1 <= width,
            1 <= height,
        ensures
            r.width == width && r.height == height,
            width <= self.original.width && height <= self.original.height ==> region_fits(
                r,
                self.original.width,
                self.original.height,
            ),
            r == selected_region(self.original, width, height),
            width == self.original.width && height == self.original.height ==> r
                == fallback_region(width, height),
    {
        let rs = Self::regions((self.original.width, self.original.height), (width, height));
        let mut scores: Vec<u64> = Vec::new();
        proof {
            assert(scores@ =~= region_scores(self.original, rs@).take(0));
        }
        let mut k: usize = 0;
        while k < rs.len()
            invariant
                k <= rs@.len(),
                scores@ == region_scores(self.original, rs@).take(k as int),
            decreases rs@.len() - k,
        {
            let sc = score_region(&self.original, rs[k]);
            scores.push(sc);
            proof {
                assert(scores@ =~= region_scores(self.original, rs@).take(k as int + 1));
            }
            k = k + 1;
        }
        proof {
            assert(scores@ =~= region_scores(self.original, rs@));
        }
        let best = select_best(&rs, &scores, Region { x: 0, y: 0, width, height });
        proof {
            let ow = self.original.width;
            let oh = self.original.height;
            let fb = fallback_region(width, height);
            lemma_select_membership(rs@, scores@, fb);
            if best != fb {
                let idx = choose|idx: int| 0 <= idx < rs@.len() && rs@[idx] == best;
                assert(rs@[idx].width == width && region_fits(rs@[idx], ow, oh));
            }
            if width == ow && height == oh {
                assert(spec_regions(ow, oh, width, height) == seq![fb]);
                assert(rs@[0] == fb);
                if scores@[0] > 0 {
                    assert(best == fb);
                } else {
                    assert(best == fb);
                }
            }
        }
        best
    }

    /// Crops the source to `width` by `height` around its most interesting
    /// region. Refuses a zero target dimension and a target larger than the
    /// source; on success `cropped` holds the extracted window of exactly the
    /// requested dimensions, and the source is left untouched either way.
    pub fn smart_crop(&mut self, width: u32, height: u32) -> (r: Result<(), CropError>)
        requires
            old(self).original.wf(),
        ensures
            final(self).original == old(self).original,
            r == Err::<(), CropError>(CropError::DegenerateTarget) <==> (width == 0 || height
                == 0),
            r == Err::<(), CropError>(CropError::SizeTooLarge) <==> (width >= 1 && height >= 1
                && (width > old(self).original.width || height > old(self).original.height)),
            r.is_ok() <==> (1 <= width <= old(self).original.width && 1 <= height <= old(
                self,
            ).original.height),
            r.is_err() ==> final(self).cropped == old(self).cropped,
            r.is_ok() ==> cropped_ok(old(self).original, final(self).cropped, width, height),
            r.is_ok() && width == old(self).original.width && height == old(
                self,
            ).original.height ==> (final(self).cropped matches Some(c) && c.data@ == old(
                self,
            ).original.data@),
    {
        if width == 0 || height == 0 {
            return Err(CropError::DegenerateTarget);
        }
        if width > self.original.width || height > self.original.height {
            return Err(CropError::SizeTooLarge);
        }
        let region = self.find_interesting_region(width, height);
        let cropped = extract(&self.original, region);
        self.cropped = Some(cropped);
        proof {
            if width == old(self).original.width && height == old(self).original.height {
                lemma_region_channels_whole(old(self).original);
            }
        }
        Ok(())
    }

    /// Crops the source to a square whose side is the smaller of its two
    /// dimensions, around the most interesting region. The derived target
    /// always fits, so the only refusal is a source with a zero dimension.
    pub fn smart_square(&mut self) -> (r: Result<(), CropError>)
        requires
            old(self).original.wf(),
        ensures
            final(self).original == old(self).original,
            r.is_ok() <==> (old(self).original.width >= 1 && old(self).original.height >= 1),
            r == Err::<(), CropError>(CropError::DegenerateTarget) <==> (old(
                self,
            ).original.width == 0 || old(self).original.height == 0),
            !(r == Err::<(), CropError>(CropError::SizeTooLarge)),
            r.is_err() ==> final(self).cropped == old(self).cropped,
            r.is_ok() ==> cropped_ok(
                old(self).original,
                final(self).cropped,
                square_size(old(self).original),
                square_size(old(self).original),
            ),
    {
        let width = self.original.width;
        let height = self.original.height;
        let size: u32 = if width <= height {
            width
        } else {
            height
        };
        self.smart_crop(size, size)
    }

    /// The dimensions of the latest crop, and `(0, 0)` while none has been
    /// made.
    pub fn dimensions(&self) -> (d: (u32, u32))
        ensures
            match self.cropped {
                Some(c) => d == (c.width, c.height),
                None => d == (0u32, 0u32),
            },
    {
        match &self.cropped {
            Some(img) => (img.width, img.height),
            None => (0, 0),
        }
    }
}

} // verus!
