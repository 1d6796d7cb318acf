//! The bit-packed binary image.
//!
//! A pixel is a single bit.  The bit for the pixel at `(x, y)` is bit
//! `i % 8` (least significant first) of byte `i / 8`, where `i = y * width + x`
//! is the row-major linear index.  This packing is fixed once here and used
//! by both construction and lookup.

use vstd::arithmetic::div_mod::lemma_div_by_self;
use vstd::arithmetic::div_mod::lemma_div_is_ordered;
use vstd::arithmetic::div_mod::lemma_div_multiples_vanish_fancy;
use vstd::arithmetic::div_mod::lemma_fundamental_div_mod;
use vstd::arithmetic::div_mod::lemma_mod_division_less_than_divisor;
use vstd::arithmetic::div_mod::lemma_multiply_divide_lt;
use vstd::arithmetic::mul::lemma_mul_inequality;
use vstd::prelude::*;

use crate::error::Error;
use crate::point::spec_translate_point;
use crate::point::IVec2;
use crate::neighbors::spec_is_corner;
use crate::neighbors::spec_neighbors;
use crate::neighbors::Neighbors;
use crate::point::UVec2;

verus! {

/// Value of bit `i % 8` of byte `i / 8` of `data`, the packed bit at linear
/// index `i`.
pub open spec fn bit_of(data: Seq<u8>, i: int) -> bool {
    (data[i / 8] >> ((i % 8) as u8)) & 1u8 == 1u8
}

/// True when any byte of the `step`-wide sample chunk that starts at
/// `i * step` in `data` is nonzero: the thresholding rule that decides
/// whether source pixel `i` is foreground.
pub open spec fn sample_on(data: Seq<u8>, i: int, step: int) -> bool {
    exists|j: int| i * step <= j < i * step + step && data[j] != 0
}

/// The thresholding rule applied by construction: pixel `(x, y)` of a
/// `w` by `h` image built from `data` is foreground iff its sample chunk
/// holds a nonzero byte.  The chunk width is `data.len() / (w * h)`.
pub open spec fn spec_pixel_rule(data: Seq<u8>, w: int, h: int, x: int, y: int) -> bool {
    sample_on(data, y * w + x, data.len() as int / (w * h))
}

/// The side length of the clamped crop interval `[lo, hi)` within
/// `[0, limit)`.
pub open spec fn crop_size(lo: u32, hi: u32, limit: u32) -> int {
    (if hi < limit { hi as int } else { limit as int }) - (if lo < limit { lo as int } else { limit as int })
}

/// Setting bit `s` of a byte raises that bit and leaves every other bit
/// unchanged.
proof fn lemma_set_bit(b: u8, s: u8, t: u8)
    by (bit_vector)
    requires
        s < 8,
        t < 8,
    ensures
        ((b | (1u8 << s)) >> s) & 1u8 == 1u8,
        s != t ==> ((b | (1u8 << s)) >> t) & 1u8 == (b >> t) & 1u8,
{
}

/// Every bit of a zero byte is clear.
proof fn lemma_zero_bit(t: u8)
    by (bit_vector)
    requires
        t < 8,
    ensures
        (0u8 >> t) & 1u8 == 0u8,
{
}

/// An immutable bit-packed 2D boolean grid, built once from raw source
/// bytes and afterwards only read.
#[derive(Debug)]
pub struct BinImage {
    data: Vec<u8>,
    height: u32,
    width: u32,
}

impl BinImage {
    /// The pixel grid fits linear indexing in `usize`, and the packed
    /// buffer holds exactly `ceil(width * height / 8)` bytes.
    #[verifier::type_invariant]
    pub closed spec fn wf(self) -> bool {
        &&& self.width * self.height <= usize::MAX
        &&& self.data@.len() == (self.width * self.height + 7) / 8
    }

    pub closed spec fn spec_width(self) -> u32 {
        self.width
    }

    pub closed spec fn spec_height(self) -> u32 {
        self.height
    }

    /// The packed bit behind the pixel at in-range `(x, y)`.
    pub closed spec fn stored_bit(self, x: int, y: int) -> bool {
        bit_of(self.data@, y * self.width + x)
    }

    /// The mathematical view of the image: whether the pixel at `(x, y)` is
    /// foreground.  Out-of-range coordinates are background.
    pub open spec fn px(self, x: int, y: int) -> bool {
        &&& 0 <= x < self.spec_width()
        &&& 0 <= y < self.spec_height()
        &&& self.stored_bit(x, y)
    }

    /// The linear index of an in-range pixel lands inside the packed buffer.
    proof fn lemma_index_in_data(self, x: int, y: int)
        requires
            self.wf(),
            0 <= x < self.width,
            0 <= y < self.height,
        ensures
            0 <= y * self.width + x < self.width * self.height,
            (y * self.width + x) / 8 < self.data@.len(),
    {
        let w = self.width as int;
        let h = self.height as int;
        let i = y * w + x;
        lemma_mul_inequality(y + 1, h, w);
        assert((y + 1) * w == y * w + w) by (nonlinear_arith);
        assert(h * w == w * h) by (nonlinear_arith);
        assert(0 <= y * w) by (nonlinear_arith)
            requires 0 <= y && 0 <= w,
        ;
        lemma_fundamental_div_mod(w * h + 7, 8);
        assert(i < 8 * self.data@.len());
        lemma_multiply_divide_lt(i, 8, self.data@.len() as int);
    }

    /// Builds the packed image from raw sample bytes.
    ///
    /// Both dimensions must be positive and `data` must hold at least
    /// `width * height` bytes; otherwise the constructor fails with
    /// [`Error::InvalidDimensions`].  With `step = data.len() / (width * height)`,
    /// pixel `i` (row-major) is foreground iff some byte of
    /// `data[i * step .. i * step + step)` is nonzero.
    pub fn new(height: u32, width: u32, data: &[u8]) -> (r: Result<BinImage, Error>)
        ensures
            match r {
                Ok(img) => {
                    &&& height > 0
                    &&& width > 0
                    &&& data@.len() >= width * height
                    &&& img.spec_width() == width
                    &&& img.spec_height() == height
                    &&& forall|x: int, y: int|
                        0 <= x < width && 0 <= y < height ==> img.px(x, y) == spec_pixel_rule(
                            data@,
                            width as int,
                            height as int,
                            x,
                            y,
                        )
                },
                Err(e) => {
                    &&& e == Error::InvalidDimensions
                    &&& (height == 0 || width == 0 || data@.len() < width * height)
                },
            },
    {
        if height == 0 || width == 0 {
            return Err(Error::InvalidDimensions);
        }
        proof {
            assert(1 <= width as int * height as int <= u64::MAX) by (nonlinear_arith)
                requires
                    1 <= width as int <= u32::MAX,
                    1 <= height as int <= u32::MAX,
            ;
        }
        let n64: u64 = (width as u64) * (height as u64);
        if (data.len() as u64) < n64 {
            return Err(Error::InvalidDimensions);
        }
        let n: usize = n64 as usize;
        let step: usize = data.len() / n;
        proof {
            lemma_fundamental_div_mod(data@.len() as int, n as int);
            lemma_mod_division_less_than_divisor(data@.len() as int, n as int);
            lemma_div_is_ordered(n as int, data@.len() as int, n as int);
            lemma_div_by_self(n as int);
            assert(step >= 1);
            assert(n as int * step as int <= data@.len());
        }
        let nbytes: usize = n / 8 + if n % 8 != 0 { 1 } else { 0 };
        proof {
            lemma_fundamental_div_mod(n as int, 8);
            lemma_mod_division_less_than_divisor(n as int, 8);
            if n % 8 == 0 {
                lemma_div_multiples_vanish_fancy(n as int / 8, 7, 8);
                assert(8 * (n as int / 8) + 7 == n as int + 7);
            } else {
                lemma_div_multiples_vanish_fancy(n as int / 8 + 1, n as int % 8 - 1, 8);
                assert(8 * (n as int / 8 + 1) + (n as int % 8 - 1) == n as int + 7);
            }
            assert(nbytes == (n as int + 7) / 8);
        }
        let mut packed: Vec<u8> = Vec::new();
        while packed.len() < nbytes
            invariant
                packed@.len() <= nbytes,
                forall|k: int| 0 <= k < packed@.len() ==> packed@[k] == 0u8,
            decreases nbytes - packed@.len(),
        {
            packed.push(0u8);
        }
        proof {
            lemma_fundamental_div_mod(n as int + 7, 8);
            lemma_mod_division_less_than_divisor(n as int + 7, 8);
            assert forall|k: int| 0 <= k < n implies !bit_of(packed@, k) by {
                lemma_fundamental_div_mod(k, 8);
                lemma_mod_division_less_than_divisor(k, 8);
                lemma_multiply_divide_lt(k, 8, nbytes as int);
                lemma_zero_bit((k % 8) as u8);
            }
        }
        let mut i: usize = 0;
        while i < n
            invariant
                i <= n,
                n == width * height,
                width > 0,
                height > 0,
                step == data@.len() as int / (n as int),
                step >= 1,
                n * step <= data@.len(),
                data@.len() <= usize::MAX,
                nbytes == (n as int + 7) / 8,
                packed@.len() == nbytes,
                forall|k: int| 0 <= k < i ==> bit_of(packed@, k) == sample_on(data@, k, step as int),
                forall|k: int| i <= k < n ==> !bit_of(packed@, k),
            decreases n - i,
        {
            proof {
                lemma_mul_inequality((i + 1) as int, n as int, step as int);
                assert((i + 1) * (step as int) == i * step + step) by (nonlinear_arith);
                assert(0 <= i * step) by (nonlinear_arith)
                    requires 0 <= i as int && 0 <= step as int,
                ;
            }
            let base: usize = i * step;
            let mut on: bool = false;
            let mut j: usize = 0;
            while j < step
                invariant
                    j <= step,
                    base == i * step,
                    base + step <= data@.len(),
                    data@.len() <= usize::MAX,
                    on == exists|t: int| base <= t < base + j && data@[t] != 0,
                decreases step - j,
            {
                if data[base + j] != 0 {
                    on = true;
                    assert(exists|t: int| base <= t < base + j + 1 && data@[t] != 0);
                }
                j += 1;
            }
            proof {
                assert(on == sample_on(data@, i as int, step as int)) by {
                    if on {
                        let t = choose|t: int| base <= t < base + step && data@[t] != 0;
                        assert(i * step <= t < i * step + step && data@[t] != 0);
                    }
                    if sample_on(data@, i as int, step as int) {
                        let t = choose|t: int|
                            i * step <= t < i * step + step && data@[t] != 0;
                        assert(base <= t < base + step && data@[t] != 0);
                    }
                }
            }
            if on {
                proof {
                    lemma_fundamental_div_mod(n as int + 7, 8);
                    lemma_mod_division_less_than_divisor(n as int + 7, 8);
                    lemma_multiply_divide_lt(i as int, 8, nbytes as int);
                }
                let bi: usize = i / 8;
                let sh: u8 = (i % 8) as u8;
                let ghost oldp = packed@;
                let old_byte: u8 = packed[bi];
                packed.set(bi, old_byte | (1u8 << sh));
                proof {
                    lemma_fundamental_div_mod(i as int, 8);
                    lemma_mod_division_less_than_divisor(i as int, 8);
                    assert forall|k: int| 0 <= k < n && k != i as int implies bit_of(packed@, k)
                        == bit_of(oldp, k) by {
                        lemma_fundamental_div_mod(k, 8);
                        lemma_mod_division_less_than_divisor(k, 8);
                        lemma_multiply_divide_lt(k, 8, nbytes as int);
                        if k / 8 == bi as int {
                            assert(k % 8 != i as int % 8);
                            lemma_set_bit(old_byte, sh, (k % 8) as u8);
                        } else {
                            assert(packed@[k / 8] == oldp[k / 8]);
                        }
                    }
                    lemma_set_bit(old_byte, sh, sh);
                    assert(bit_of(packed@, i as int));
                    assert forall|k: int| 0 <= k < i implies bit_of(packed@, k) == sample_on(
                        data@,
                        k,
                        step as int,
                    ) by {
                        assert(bit_of(packed@, k) == bit_of(oldp, k));
                        assert(bit_of(oldp, k) == sample_on(data@, k, step as int));
                    }
                    assert forall|k: int| i + 1 <= k < n implies !bit_of(packed@, k) by {
                        assert(bit_of(packed@, k) == bit_of(oldp, k));
                        assert(!bit_of(oldp, k));
                    }
                }
            }
            i += 1;
        }
        let img = BinImage { data: packed, height, width };
        proof {
            assert(img.wf());
            assert forall|x: int, y: int| 0 <= x < width && 0 <= y < height implies img.px(x, y)
                == spec_pixel_rule(data@, width as int, height as int, x, y) by {
                img.lemma_index_in_data(x, y);
            }
        }
        Ok(img)
    }

    /// The height of the image in pixels.
    pub fn height(&self) -> (h: u32)
        ensures
            h == self.spec_height(),
    {
        self.height
    }

    /// The width of the image in pixels.
    pub fn width(&self) -> (w: u32)
        ensures
            w == self.spec_width(),
    {
        self.width
    }

    /// The number of pixels, `width * height`, exact in `usize`.
    pub fn area(&self) -> (n: usize)
        ensures
            n == self.spec_width() * self.spec_height(),
    {
        proof {
            use_type_invariant(self);
        }
        (self.width as usize) * (self.height as usize)
    }

    /// The pixel value at `p`: true iff the pixel is foreground.  Bounds
    /// safe: coordinates at or beyond the image edge read as background.
    pub fn get(&self, p: UVec2) -> (r: bool)
        ensures
            r == self.px(p.x as int, p.y as int),
    {
        proof {
            use_type_invariant(self);
        }
        if p.x >= self.width || p.y >= self.height {
            return false;
        }
        proof {
            self.lemma_index_in_data(p.x as int, p.y as int);
        }
        let index: usize = (p.y as usize) * (self.width as usize) + (p.x as usize);
        let byte: u8 = self.data[index / 8];
        let sh: u8 = (index % 8) as u8;
        ((byte >> sh) & 1u8) == 1u8
    }

    /// The 8-connectivity neighbor mask of `p` as a raw flag byte, with
    /// closed boundary semantics: off-grid neighbors read as background.
    pub fn get_neighbors(&self, p: UVec2) -> (r: u8)
        ensures
            r == spec_neighbors(*self, p.x as int, p.y as int),
    {
        Neighbors::from_image(self, p.x, p.y).bits()
    }

    /// Crops the image to the rectangle `[min, max)`, clamped to the image
    /// bounds.  Fails with [`Error::InvalidRange`] when `min` exceeds `max`
    /// in either component; an empty clamped rectangle yields the empty
    /// 0 by 0 image.
    pub fn crop(&self, min: UVec2, max: UVec2) -> (r: Result<BinImage, Error>)
        ensures
            match r {
                Ok(img) => {
                    &&& min.x <= max.x && min.y <= max.y
                    &&& if crop_size(min.x, max.x, self.spec_width()) == 0 || crop_size(
                        min.y,
                        max.y,
                        self.spec_height(),
                    ) == 0 {
                        img.spec_width() == 0 && img.spec_height() == 0
                    } else {
                        img.spec_width() == crop_size(min.x, max.x, self.spec_width())
                            && img.spec_height() == crop_size(min.y, max.y, self.spec_height())
                    }
                    &&& forall|x: int, y: int|
                        0 <= x < img.spec_width() && 0 <= y < img.spec_height() ==> img.px(x, y)
                            == self.px(min.x + x, min.y + y)
                },
                Err(e) => {
                    &&& e == Error::InvalidRange
                    &&& (min.x > max.x || min.y > max.y)
                },
            },
    {
        proof {
            use_type_invariant(self);
        }
        if min.x > max.x || min.y > max.y {
            return Err(Error::InvalidRange);
        }
        let cw: u32 = if max.x < self.width {
            max.x
        } else {
            self.width
        } - if min.x < self.width {
            min.x
        } else {
            self.width
        };
        let ch: u32 = if max.y < self.height {
            max.y
        } else {
            self.height
        } - if min.y < self.height {
            min.y
        } else {
            self.height
        };
        if cw == 0 || ch == 0 {
            return Ok(BinImage { data: Vec::new(), height: 0, width: 0 });
        }
        proof {
            lemma_mul_inequality(cw as int, self.width as int, ch as int);
            lemma_mul_inequality(ch as int, self.height as int, self.width as int);
            assert(self.width as int * ch as int == ch as int * self.width as int)
                by (nonlinear_arith);
            assert(self.height as int * self.width as int == self.width as int * self.height as int)
                by (nonlinear_arith);
            assert(cw as int * ch as int <= usize::MAX);
            assert(1 <= cw as int * ch as int) by (nonlinear_arith)
                requires
                    1 <= cw as int,
                    1 <= ch as int,
            ;
        }
        let n: usize = (cw as usize) * (ch as usize);
        let mut bytes: Vec<u8> = Vec::new();
        let mut i: usize = 0;
        while i < n
            invariant
                i <= n,
                n == cw * ch,
                cw > 0,
                ch > 0,
                cw as int == crop_size(min.x, max.x, self.spec_width()),
                ch as int == crop_size(min.y, max.y, self.spec_height()),
                min.x + cw <= u32::MAX,
                min.y + ch <= u32::MAX,
                bytes@.len() == i,
                forall|k: int|
                    0 <= k < i ==> (bytes@[k] != 0) == self.px(
                        min.x + k % (cw as int),
                        min.y + k / (cw as int),
                    ),
            decreases n - i,
        {
            proof {
                lemma_mod_division_less_than_divisor(i as int, cw as int);
                lemma_multiply_divide_lt(i as int, cw as int, ch as int);
            }
            let x: u32 = (i % (cw as usize)) as u32;
            let y: u32 = (i / (cw as usize)) as u32;
            let on: bool = self.get(UVec2::new(min.x + x, min.y + y));
            bytes.push(if on { 1u8 } else { 0u8 });
            i += 1;
        }
        let img = match Self::new(ch, cw, bytes.as_slice()) {
            Ok(img) => img,
            Err(_) => {
                proof {
                    assert(false);
                }
                return Err(Error::InvalidRange);
            },
        };
        proof {
            lemma_div_by_self(n as int);
            assert forall|x: int, y: int| 0 <= x < cw && 0 <= y < ch implies img.px(x, y)
                == self.px(min.x + x, min.y + y) by {
                let k = y * cw + x;
                lemma_div_multiples_vanish_fancy(y, x, cw as int);
                lemma_fundamental_div_mod(k, cw as int);
                assert(cw as int * y == y * cw as int) by (nonlinear_arith);
                assert(0 <= k < n) by {
                    lemma_mul_inequality(y + 1, ch as int, cw as int);
                    assert((y + 1) * cw as int == y * cw as int + cw as int) by (nonlinear_arith);
                    assert(ch as int * cw as int == cw as int * ch as int) by (nonlinear_arith);
                    assert(0 <= y * cw as int) by (nonlinear_arith)
                        requires 0 <= y && 0 <= cw as int,
                    ;
                }
                assert(sample_on(bytes@, k, 1) == (bytes@[k] != 0)) by {
                    if bytes@[k] != 0 {
                        assert(k * 1 <= k < k * 1 + 1);
                    }
                    if sample_on(bytes@, k, 1) {
                        let j = choose|j: int| k * 1 <= j < k * 1 + 1 && bytes@[j] != 0;
                        assert(j == k);
                    }
                }
            }
        }
        Ok(img)
    }

    /// Translates each raw point into the frame whose origin is the image
    /// center `(width / 2, height / 2)` (integer halves) with Y pointing up.
    pub fn translate(&self, v: &Vec<UVec2>) -> (r: Vec<IVec2>)
        ensures
            r@.len() == v@.len(),
            forall|i: int|
                0 <= i < v@.len() ==> r@[i] == spec_translate_point(
                    v@[i],
                    self.spec_width() as int / 2,
                    self.spec_height() as int / 2,
                ),
    {
        let cx: i64 = (self.width / 2) as i64;
        let cy: i64 = (self.height / 2) as i64;
        let mut out: Vec<IVec2> = Vec::new();
        let mut i: usize = 0;
        while i < v.len()
            invariant
                i <= v@.len(),
                cx == self.spec_width() as int / 2,
                cy == self.spec_height() as int / 2,
                out@.len() == i,
                forall|k: int|
                    0 <= k < i ==> out@[k] == spec_translate_point(v@[k], cx as int, cy as int),
            decreases v@.len() - i,
        {
            let p = v[i];
            out.push(IVec2 { x: p.x as i64 - cx, y: cy - p.y as i64 });
            i += 1;
        }
        out
    }

    /// Whether `p` is a foreground pixel whose neighbor mask marks a
    /// direction-change vertex.
    pub fn is_corner(&self, p: UVec2) -> (r: bool)
        ensures
            r == (self.px(p.x as int, p.y as int) && spec_is_corner(
                spec_neighbors(*self, p.x as int, p.y as int),
            )),
    {
        self.get(p) && Neighbors::from_image(self, p.x, p.y).is_corner()
    }
}

} // verus!
