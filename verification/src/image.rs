//! An RGBA image with 8 bits per channel, stored row by row.
//!
//! The buffer layout is the one of `image::RgbaImage`: pixel `(x, y)` of an image
//! `width` pixels wide occupies the four bytes starting at `4 * (y * width + x)`,
//! in the order red, green, blue, alpha.
use vstd::prelude::*;

verus! {

/// The mathematical content of an image: its dimensions and its raw bytes.
pub struct ImageModel {
    pub width: nat,
    pub height: nat,
    pub bytes: Seq<u8>,
}

/// The pixel that fills a freshly created image.
pub open spec fn zero_pixel() -> Seq<u8> {
    seq![0u8, 0u8, 0u8, 0u8]
}

impl ImageModel {
    /// The buffer holds exactly four bytes per pixel.
    pub open spec fn wf(self) -> bool {
        self.bytes.len() == 4 * self.width * self.height
    }

    pub open spec fn in_bounds(self, x: int, y: int) -> bool {
        0 <= x < self.width && 0 <= y < self.height
    }

    /// Offset of the first byte of pixel `(x, y)`.
    pub open spec fn offset(self, x: int, y: int) -> int {
        4 * (y * self.width + x)
    }

    /// The four channels of pixel `(x, y)`.
    pub open spec fn pixel(self, x: int, y: int) -> Seq<u8> {
        self.bytes.subrange(self.offset(x, y), self.offset(x, y) + 4)
    }

    /// The image with pixel `(x, y)` set to `p`.
    pub open spec fn with_pixel(self, x: int, y: int, p: Seq<u8>) -> ImageModel {
        ImageModel {
            width: self.width,
            height: self.height,
            bytes: self.bytes.subrange(0, self.offset(x, y)) + p + self.bytes.subrange(
                self.offset(x, y) + 4,
                self.bytes.len() as int,
            ),
        }
    }

    /// Both images have the same dimensions and the same pixels.
    pub open spec fn same_pixels(self, other: ImageModel) -> bool {
        &&& self.width == other.width
        &&& self.height == other.height
        &&& forall|x: int, y: int| #[trigger]
            self.in_bounds(x, y) ==> self.pixel(x, y) == other.pixel(x, y)
    }
}

/// Offsets of distinct in-bounds pixels are at least four bytes apart, and every
/// in-bounds pixel lies inside the buffer.
pub proof fn lemma_offsets(m: ImageModel, x: int, y: int, x2: int, y2: int)
    requires
        m.in_bounds(x, y),
        m.in_bounds(x2, y2),
    ensures
        0 <= m.offset(x, y),
        0 <= y * m.width + x,
        y * m.width + x < m.width * m.height,
        y * m.width <= y * m.width + x,
        4 * (m.width * m.height) == 4 * m.width * m.height,
        m.offset(x, y) + 4 <= 4 * m.width * m.height,
        (x != x2 || y != y2) ==> (m.offset(x, y) + 4 <= m.offset(x2, y2) || m.offset(x2, y2) + 4
            <= m.offset(x, y)),
{
    let w = m.width as int;
    let h = m.height as int;
    assert(0 <= y * w + x) by (nonlinear_arith)
        requires
            0 <= x < w,
            0 <= y,
    ;
    assert(y * w + x + 1 <= w * h) by (nonlinear_arith)
        requires
            0 <= x < w,
            0 <= y < h,
    ;
    assert(4 * (w * h) == 4 * w * h) by (nonlinear_arith);
    assert(0 <= y * w) by (nonlinear_arith)
        requires
            0 <= y,
            0 <= w,
    ;
    if y == y2 {
    } else if y < y2 {
        assert(y * w + x + 1 <= y2 * w + x2) by (nonlinear_arith)
            requires
                0 <= x < w,
                0 <= x2,
                y < y2,
        ;
    } else {
        assert(y2 * w + x2 + 1 <= y * w + x) by (nonlinear_arith)
            requires
                0 <= x2 < w,
                0 <= x,
                y2 < y,
        ;
    }
}

/// Setting one pixel changes that pixel and no other.
pub proof fn lemma_with_pixel(m: ImageModel, x: int, y: int, p: Seq<u8>)
    requires
        m.wf(),
        m.in_bounds(x, y),
        p.len() == 4,
    ensures
        m.with_pixel(x, y, p).wf(),
        forall|x2: int, y2: int| #[trigger]
            m.in_bounds(x2, y2) ==> m.with_pixel(x, y, p).pixel(x2, y2) == (if x2 == x && y2 == y {
                p
            } else {
                m.pixel(x2, y2)
            }),
{
    let n = m.with_pixel(x, y, p);
    lemma_offsets(m, x, y, x, y);
    assert forall|x2: int, y2: int| #[trigger] m.in_bounds(x2, y2) implies n.pixel(x2, y2) == (if x2
        == x && y2 == y {
        p
    } else {
        m.pixel(x2, y2)
    }) by {
        lemma_offsets(m, x2, y2, x, y);
        if x2 == x && y2 == y {
            assert(n.pixel(x2, y2) =~= p);
        } else {
            assert(n.pixel(x2, y2) =~= m.pixel(x2, y2));
        }
    }
}

/// Two well-formed images with the same dimensions and pixels are equal.
pub proof fn lemma_same_pixels_equal(a: ImageModel, b: ImageModel)
    requires
        a.wf(),
        b.wf(),
        a.same_pixels(b),
    ensures
        a == b,
{
    let w = a.width as int;
    assert forall|k: int| 0 <= k < a.bytes.len() implies a.bytes[k] == b.bytes[k] by {
        let q = k / 4;
        let x = q % w;
        let y = q / w;
        assert(w > 0) by (nonlinear_arith)
            requires
                0 <= k < 4 * w * (a.height as int),
        ;
        assert(0 <= x < w && y * w + x == q) by (nonlinear_arith)
            requires
                w > 0,
                x == q % w,
                y == q / w,
        ;
        assert(0 <= y < a.height) by (nonlinear_arith)
            requires
                w > 0,
                0 <= k < 4 * w * (a.height as int),
                q == k / 4,
                y == q / w,
                y * w + x == q,
                0 <= x,
        ;
        assert(a.in_bounds(x, y));
        lemma_offsets(a, x, y, x, y);
        assert(a.pixel(x, y) == b.pixel(x, y));
        let off = a.offset(x, y);
        assert(off <= k < off + 4);
        assert(a.bytes[k] == a.pixel(x, y)[k - off]);
        assert(b.bytes[k] == b.pixel(x, y)[k - off]);
    }
    assert(a.bytes =~= b.bytes);
}

/// The image mirrored along its main diagonal: rows become columns, so pixel `(x, y)` of
/// the result is pixel `(y, x)` of `m`.
pub open spec fn transpose(m: ImageModel) -> ImageModel {
    ImageModel {
        width: m.height,
        height: m.width,
        bytes: Seq::new(
            4 * m.width * m.height,
            |k: int|
                m.bytes[4 * ((k / 4) % (m.height as int) * m.width + (k / 4) / (m.height as int))
                    + k % 4],
        ),
    }
}

/// The transpose of a well-formed image is well formed and shows pixel `(y, x)` of the
/// image at `(x, y)`.
pub proof fn lemma_transpose(m: ImageModel)
    requires
        m.wf(),
    ensures
        transpose(m).wf(),
        forall|x: int, y: int| #[trigger]
            transpose(m).in_bounds(x, y) ==> transpose(m).pixel(x, y) == m.pixel(y, x),
{
    let t = transpose(m);
    let w = m.width as int;
    let h = m.height as int;
    assert(4 * w * h == 4 * h * w) by (nonlinear_arith);
    assert forall|x: int, y: int| #[trigger] t.in_bounds(x, y) implies t.pixel(x, y) == m.pixel(
        y,
        x,
    ) by {
        lemma_offsets(t, x, y, x, y);
        lemma_offsets(m, y, x, y, x);
        let q = y * h + x;
        assert(t.offset(x, y) == 4 * q);
        assert forall|c: int| 0 <= c < 4 implies #[trigger] t.bytes[4 * q + c] == m.bytes[4 * (x
            * w + y) + c] by {
            vstd::arithmetic::div_mod::lemma_fundamental_div_mod_converse_div(4 * q + c, 4, q, c);
            vstd::arithmetic::div_mod::lemma_fundamental_div_mod_converse_mod(4 * q + c, 4, q, c);
            vstd::arithmetic::div_mod::lemma_fundamental_div_mod_converse_div(q, h, y, x);
            vstd::arithmetic::div_mod::lemma_fundamental_div_mod_converse_mod(q, h, y, x);
        }
        assert(t.pixel(x, y) =~= m.pixel(y, x)) by {
            assert forall|c: int| 0 <= c < 4 implies t.pixel(x, y)[c] == m.pixel(y, x)[c] by {
                assert(t.bytes[4 * q + c] == m.bytes[4 * (x * w + y) + c]);
            }
        }
    }
}

/// Transposing twice gives the image back.
pub proof fn lemma_transpose_twice(m: ImageModel)
    requires
        m.wf(),
    ensures
        transpose(transpose(m)) == m,
{
    let t = transpose(m);
    lemma_transpose(m);
    lemma_transpose(t);
    let tt = transpose(t);
    assert forall|x: int, y: int| #[trigger] tt.in_bounds(x, y) implies tt.pixel(x, y) == m.pixel(
        x,
        y,
    ) by {
        assert(t.in_bounds(y, x));
    }
    lemma_same_pixels_equal(tt, m);
}

pub open spec fn min_nat(a: nat, b: nat) -> nat {
    if a <= b {
        a
    } else {
        b
    }
}

/// The region `image::imageops::crop_imm` keeps of a `width` by `height` request at
/// `(x, y)`: the origin clamped into the image, the size clamped to what is left of it.
pub open spec fn crop_window(m: ImageModel, x: nat, y: nat, w: nat, h: nat) -> (nat, nat, nat, nat) {
    let cx = min_nat(x, m.width);
    let cy = min_nat(y, m.height);
    (cx, cy, min_nat(w, (m.width - cx) as nat), min_nat(h, (m.height - cy) as nat))
}

/// `r` is the copy of the region of `m` that a crop at `(x, y)` of size `w` by `h` keeps.
pub open spec fn is_crop_of(r: ImageModel, m: ImageModel, x: nat, y: nat, w: nat, h: nat) -> bool {
    let (cx, cy, cw, ch) = crop_window(m, x, y, w, h);
    &&& r.wf()
    &&& r.width == cw
    &&& r.height == ch
    &&& forall|i: int, j: int| #[trigger]
        r.in_bounds(i, j) ==> r.pixel(i, j) == m.pixel(cx + i, cy + j)
}

/// `r` is `bottom` with `top` pasted so that its top-left corner lands on `(x, y)`;
/// the parts of `top` that fall outside `bottom` are dropped.
pub open spec fn is_replace_of(r: ImageModel, bottom: ImageModel, top: ImageModel, x: int, y: int) -> bool {
    &&& r.wf()
    &&& r.width == bottom.width
    &&& r.height == bottom.height
    &&& forall|i: int, j: int| #[trigger]
        r.in_bounds(i, j) ==> r.pixel(i, j) == (if x <= i < x + top.width && y <= j < y
            + top.height {
            top.pixel(i - x, j - y)
        } else {
            bottom.pixel(i, j)
        })
}

/// Calls `image::imageops::crop_imm` and copies the view out with `SubImage::to_image`.
/// Trusted: the result is the clamped region of the source, pixel for pixel, in a buffer of
/// exactly four bytes per pixel (`crop_dimms` clamps, `to_image` fills a fresh
/// `ImageBuffer::new` with `get_pixel(x + xoffset, y + yoffset)`).
#[verifier::external_body]
fn crop_imm_bytes(width: u32, height: u32, data: &Vec<u8>, x: u32, y: u32, w: u32, h: u32) -> (r: (
    u32,
    u32,
    Vec<u8>,
))
    requires
        data@.len() == 4 * width * height,
    ensures
        is_crop_of(
            ImageModel { width: r.0 as nat, height: r.1 as nat, bytes: r.2@ },
            ImageModel { width: width as nat, height: height as nat, bytes: data@ },
            x as nat,
            y as nat,
            w as nat,
            h as nat,
        ),
{
    let src = ::image::RgbaImage::from_raw(width, height, data.clone()).unwrap();
    let out = ::image::imageops::crop_imm(&src, x, y, w, h).to_image();
    let (out_w, out_h) = out.dimensions();
    (out_w, out_h, out.into_raw())
}

/// Calls `image::imageops::replace`. Trusted: every pixel of `bottom` that lies under the
/// pasted `top` (top-left corner at `(x, y)`) takes the colour of `top`, every other pixel
/// keeps its colour, and the buffer keeps its size (`overlay_bounds_ext` clips the copied
/// range to both images).
#[verifier::external_body]
fn replace_bytes(
    bottom_width: u32,
    bottom_height: u32,
    bottom: &mut Vec<u8>,
    top_width: u32,
    top_height: u32,
    top: &Vec<u8>,
    x: i64,
    y: i64,
)
    requires
        old(bottom)@.len() == 4 * bottom_width * bottom_height,
        top@.len() == 4 * top_width * top_height,
    ensures
        is_replace_of(
            ImageModel { width: bottom_width as nat, height: bottom_height as nat, bytes: final(bottom)@ },
            ImageModel { width: bottom_width as nat, height: bottom_height as nat, bytes: old(bottom)@ },
            ImageModel { width: top_width as nat, height: top_height as nat, bytes: top@ },
            x as int,
            y as int,
        ),
{
    let mut base = ::image::RgbaImage::from_raw(bottom_width, bottom_height, std::mem::take(bottom)).unwrap();
    let over = ::image::ImageBuffer::<::image::Rgba<u8>, &[u8]>::from_raw(top_width, top_height, top.as_slice()).unwrap();
    ::image::imageops::replace(&mut base, &over, x, y);
    *bottom = base.into_raw();
}

/// An RGBA image, four bytes per pixel, row by row.
pub struct Image {
    width: u32,
    height: u32,
    data: Vec<u8>,
}

impl View for Image {
    type V = ImageModel;

    closed spec fn view(&self) -> ImageModel {
        ImageModel { width: self.width as nat, height: self.height as nat, bytes: self.data@ }
    }
}

impl Image {
    #[verifier::type_invariant]
    spec fn inv(self) -> bool {
        self.data@.len() == 4 * (self.width as int) * (self.height as int)
    }

    /// Every image value satisfies the buffer-size invariant.
    pub fn lemma_wf(&self)
        ensures
            self@.wf(),
            4 * self@.width * self@.height <= usize::MAX,
    {
        proof {
            use_type_invariant(self);
        }
        let _n: usize = self.data.len();
    }

    /// A new image of the given size with every byte zero.
    pub fn new(width: u32, height: u32) -> (r: Image)
        requires
            4 * width * height <= usize::MAX,
        ensures
            r@.width == width,
            r@.height == height,
            r@.wf(),
            forall|x: int, y: int| #[trigger] r@.in_bounds(x, y) ==> r@.pixel(x, y) == zero_pixel(),
    {
        assert((width as int) * (height as int) <= usize::MAX && 4 * ((width as int) * (height as int))
            == 4 * width * height) by (nonlinear_arith)
            requires
                4 * width * height <= usize::MAX,
        ;
        let n: usize = 4 * ((width as usize) * (height as usize));
        let data: Vec<u8> = vec![0u8; n];
        let r = Image { width, height, data };
        assert forall|x: int, y: int| #[trigger] r@.in_bounds(x, y) implies r@.pixel(x, y)
            == zero_pixel() by {
            lemma_offsets(r@, x, y, x, y);
            assert(r@.pixel(x, y) =~= zero_pixel());
        }
        r
    }

    /// Wraps a buffer of exactly `4 * width * height` bytes; `None` for any other length.
    pub fn from_raw(width: u32, height: u32, data: Vec<u8>) -> (r: Option<Image>)
        ensures
            r is Some <==> data@.len() == 4 * width * height,
            r matches Some(img) ==> (img@ == ImageModel {
                width: width as nat,
                height: height as nat,
                bytes: data@,
            }),
    {
        let w: u64 = width as u64;
        let h: u64 = height as u64;
        let len: usize = data.len();
        assert(w * h <= u64::MAX) by (nonlinear_arith)
            requires
                w <= u32::MAX,
                h <= u32::MAX,
        ;
        let wh: u64 = w * h;
        assert(4 * (wh as int) == 4 * width * height) by (nonlinear_arith)
            requires
                wh == (width as int) * (height as int),
        ;
        if wh > (usize::MAX / 4) as u64 {
            assert(4 * (wh as int) > usize::MAX);
            return None;
        }
        if len == 4 * (wh as usize) {
            Some(Image { width, height, data })
        } else {
            None
        }
    }

    pub fn width(&self) -> (w: u32)
        ensures
            w == self@.width,
            self@.wf(),
    {
        proof {
            use_type_invariant(self);
        }
        self.width
    }

    pub fn height(&self) -> (h: u32)
        ensures
            h == self@.height,
            self@.wf(),
    {
        proof {
            use_type_invariant(self);
        }
        self.height
    }

    pub fn dimensions(&self) -> (r: (u32, u32))
        ensures
            r.0 == self@.width,
            r.1 == self@.height,
            self@.wf(),
    {
        proof {
            use_type_invariant(self);
        }
        (self.width, self.height)
    }

    /// The pixel at `(x, y)`; the coordinates must lie inside the image.
    pub fn get_pixel(&self, x: u32, y: u32) -> (p: [u8; 4])
        requires
            self@.in_bounds(x as int, y as int),
        ensures
            p@ == self@.pixel(x as int, y as int),
    {
        proof {
            use_type_invariant(self);
            lemma_offsets(self@, x as int, y as int, x as int, y as int);
        }
        let _n: usize = self.data.len();
        let i: usize = 4 * ((y as usize) * (self.width as usize) + (x as usize));
        let p: [u8; 4] = [self.data[i], self.data[i + 1], self.data[i + 2], self.data[i + 3]];
        assert(p@ =~= self@.pixel(x as int, y as int));
        p
    }

    /// Sets the pixel at `(x, y)`; the coordinates must lie inside the image.
    pub fn put_pixel(&mut self, x: u32, y: u32, p: [u8; 4])
        requires
            old(self)@.in_bounds(x as int, y as int),
        ensures
            final(self)@ == old(self)@.with_pixel(x as int, y as int, p@),
            final(self)@.wf(),
            forall|x2: int, y2: int| #[trigger]
                old(self)@.in_bounds(x2, y2) ==> final(self)@.pixel(x2, y2) == (if x2 == x && y2
                    == y {
                    p@
                } else {
                    old(self)@.pixel(x2, y2)
                }),
    {
        proof {
            use_type_invariant(&*self);
            lemma_offsets(self@, x as int, y as int, x as int, y as int);
            lemma_with_pixel(self@, x as int, y as int, p@);
        }
        let ghost before = self@;
        let _n: usize = self.data.len();
        let i: usize = 4 * ((y as usize) * (self.width as usize) + (x as usize));
        let empty: Vec<u8> = Vec::new();
        let zero: u32 = 0;
        assert(4 * (zero as int) * (zero as int) == 0);
        let mut taken = Image { width: zero, height: zero, data: empty };
        std::mem::swap(self, &mut taken);
        let Image { width, height, mut data } = taken;
        data.set(i, p[0]);
        data.set(i + 1, p[1]);
        data.set(i + 2, p[2]);
        data.set(i + 3, p[3]);
        assert(data@ =~= before.with_pixel(x as int, y as int, p@).bytes);
        *self = Image { width, height, data };
    }

    /// The region of this image at `(x, y)` of size `w` by `h`, clamped to the image,
    /// as a new image (`image::imageops::crop_imm` followed by `to_image`).
    pub fn crop_imm(&self, x: u32, y: u32, w: u32, h: u32) -> (r: Image)
        ensures
            is_crop_of(r@, self@, x as nat, y as nat, w as nat, h as nat),
    {
        proof {
            use_type_invariant(self);
        }
        let (cw, ch, data) = crop_imm_bytes(self.width, self.height, &self.data, x, y, w, h);
        Image { width: cw, height: ch, data }
    }

    /// Pastes `top` onto this image with its top-left corner at `(x, y)`
    /// (`image::imageops::replace`).
    pub fn replace(&mut self, top: &Image, x: i64, y: i64)
        ensures
            is_replace_of(final(self)@, old(self)@, top@, x as int, y as int),
    {
        proof {
            use_type_invariant(&*self);
            use_type_invariant(top);
        }
        let empty: Vec<u8> = Vec::new();
        let zero: u32 = 0;
        assert(4 * (zero as int) * (zero as int) == 0);
        let mut taken = Image { width: zero, height: zero, data: empty };
        std::mem::swap(self, &mut taken);
        let Image { width, height, mut data } = taken;
        replace_bytes(width, height, &mut data, top.width, top.height, &top.data, x, y);
        *self = Image { width, height, data };
    }

    /// The raw bytes, row by row.
    pub fn as_raw(&self) -> (r: &Vec<u8>)
        ensures
            r@ == self@.bytes,
            self@.wf(),
    {
        proof {
            use_type_invariant(self);
        }
        &self.data
    }

    /// Gives up the image and returns its raw bytes.
    pub fn into_raw(self) -> (r: Vec<u8>)
        ensures
            r@ == self@.bytes,
            self@.wf(),
    {
        proof {
            use_type_invariant(&self);
        }
        self.data
    }
}

impl Clone for Image {
    fn clone(&self) -> (r: Self)
        ensures
            r@ == self@,
    {
        proof {
            use_type_invariant(self);
        }
        Image { width: self.width, height: self.height, data: self.data.clone() }
    }
}

} // verus!
