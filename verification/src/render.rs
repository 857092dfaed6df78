//! Integer logic of the tiled renderer: partitioning the image rows into
//! per-worker bands, the byte layout of the shared frame buffer, and the
//! final narrowing of accumulated color channels to 8-bit intensities.

use vstd::prelude::*;

verus! {

/// Number of bytes in the frame buffer of a `width` x `height` image,
/// three per pixel.
pub open spec fn buffer_len(width: int, height: int) -> int {
    3 * width * height
}

/// Rows each worker band holds (integer division: when the worker count does
/// not divide the height, the remainder rows belong to no band and keep their
/// initial value in the buffer).
pub open spec fn rows_per_band(height: int, workers: int) -> int {
    height / workers
}

/// First image row (counted from the bottom of the frame) of worker `k`'s band.
pub open spec fn band_start_row(height: int, workers: int, k: int) -> int {
    rows_per_band(height, workers) * k
}

/// One past the last image row of worker `k`'s band.
pub open spec fn band_end_row(height: int, workers: int, k: int) -> int {
    rows_per_band(height, workers) * (k + 1)
}

/// Byte offset of worker `k`'s write region. Workers with low row numbers
/// (bottom of the image) write near the end of the buffer, so the buffer is
/// laid out top row first, as the encoder expects.
pub open spec fn band_byte_offset(width: int, height: int, workers: int, k: int) -> int {
    (workers - k - 1) * (buffer_len(width, height) / workers)
}

/// Number of bytes worker `k` writes: the full rows of its band.
pub open spec fn band_byte_len(width: int, height: int, workers: int) -> int {
    3 * width * rows_per_band(height, workers)
}

/// Whether byte position `p` of the buffer lies in worker `k`'s write region.
pub open spec fn in_band(width: int, height: int, workers: int, k: int, p: int) -> bool {
    band_byte_offset(width, height, workers, k) <= p < band_byte_offset(
        width,
        height,
        workers,
        k,
    ) + band_byte_len(width, height, workers)
}

/// A divisor times a quotient stays at or below the dividend.
proof fn lemma_div_mul_le(a: int, b: int)
    requires
        0 <= a,
        1 <= b,
    ensures
        0 <= a / b,
        b * (a / b) <= a,
{
    vstd::arithmetic::div_mod::lemma_fundamental_div_mod(a, b);
    vstd::arithmetic::div_mod::lemma_mod_bound(a, b);
    vstd::arithmetic::div_mod::lemma_div_pos_is_pos(a, b);
}

/// A band never holds more bytes than an even share of the buffer.
proof fn lemma_band_len_le_quota(width: int, height: int, workers: int)
    requires
        0 <= width,
        0 <= height,
        1 <= workers,
    ensures
        0 <= band_byte_len(width, height, workers) <= buffer_len(width, height) / workers,
{
    let q = height / workers;
    lemma_div_mul_le(height as int, workers as int);
    assert(0 <= 3 * width * q <= 3 * width * height) by (nonlinear_arith)
        requires
            0 <= width,
            0 <= q,
            workers * q <= height,
            1 <= workers,
    ;
    assert(3 * width * height >= (3 * width * q) * workers) by (nonlinear_arith)
        requires
            0 <= width,
            0 <= q,
            workers * q <= height,
    ;
    vstd::arithmetic::div_mod::lemma_div_is_ordered(
        (3 * width * q) * workers,
        3 * width * height,
        workers,
    );
    vstd::arithmetic::div_mod::lemma_div_multiples_vanish(3 * width * q, workers);
    assert((3 * width * q) * workers == workers * (3 * width * q)) by (nonlinear_arith);
}

/// Each band's write region lies inside the buffer.
proof fn lemma_band_region_in_bounds(width: int, height: int, workers: int, k: int)
    requires
        0 <= width,
        0 <= height,
        1 <= workers,
        0 <= k < workers,
    ensures
        0 <= band_byte_offset(width, height, workers, k),
        band_byte_offset(width, height, workers, k) + band_byte_len(width, height, workers)
            <= buffer_len(width, height),
{
    let total = buffer_len(width, height);
    let quota = total / workers;
    assert(0 <= 3 * width * height) by (nonlinear_arith)
        requires
            0 <= width,
            0 <= height,
    ;
    lemma_div_mul_le(total, workers);
    lemma_band_len_le_quota(width, height, workers);
    assert(0 <= (workers - k - 1) * quota) by (nonlinear_arith)
        requires
            0 <= quota,
            0 <= workers - k - 1,
    ;
    assert((workers - k - 1) * quota + quota <= workers * quota) by (nonlinear_arith)
        requires
            0 <= quota,
            k >= 0,
    ;
    assert(workers * quota <= total);
}

/// Write regions of two different bands do not overlap: the band with the
/// larger worker index starts and ends before the other begins.
proof fn lemma_bands_disjoint(width: int, height: int, workers: int, k1: int, k2: int)
    requires
        0 <= width,
        0 <= height,
        1 <= workers,
        0 <= k1 < k2 < workers,
    ensures
        band_byte_offset(width, height, workers, k2) + band_byte_len(width, height, workers)
            <= band_byte_offset(width, height, workers, k1),
{
    let total = buffer_len(width, height);
    let quota = total / workers;
    assert(0 <= 3 * width * height) by (nonlinear_arith)
        requires
            0 <= width,
            0 <= height,
    ;
    lemma_div_mul_le(total, workers);
    lemma_band_len_le_quota(width, height, workers);
    assert((workers - k2 - 1) * quota + quota <= (workers - k1 - 1) * quota) by (nonlinear_arith)
        requires
            0 <= quota,
            k1 < k2,
    ;
}

/// Row range `[start, end)` of worker `k`'s band, counted from the bottom of
/// the image.
pub fn band_rows(height: u32, workers: u32, k: u32) -> (r: (u32, u32))
    requires
        1 <= workers,
        k < workers,
    ensures
        r.0 == band_start_row(height as int, workers as int, k as int),
        r.1 == band_end_row(height as int, workers as int, k as int),
        r.0 <= r.1 <= height,
{
    let rows = height / workers;
    proof {
        let q = height as int / workers as int;
        lemma_div_mul_le(height as int, workers as int);
        assert(q * (k as int) <= q * (k + 1)) by (nonlinear_arith)
            requires
                0 <= q,
        ;
        assert(q * (k + 1) <= q * (workers as int)) by (nonlinear_arith)
            requires
                0 <= q,
                k < workers,
        ;
        assert(q * (workers as int) == (workers as int) * q) by (nonlinear_arith);
    }
    (rows * k, rows * (k + 1))
}

/// Starting byte index of worker `k`'s write region in the frame buffer.
pub fn band_start_index(width: u32, height: u32, workers: u32, k: u32) -> (r: usize)
    requires
        1 <= workers,
        k < workers,
        buffer_len(width as int, height as int) <= usize::MAX,
    ensures
        r == band_byte_offset(width as int, height as int, workers as int, k as int),
        r + band_byte_len(width as int, height as int, workers as int) <= buffer_len(
            width as int,
            height as int,
        ),
{
    proof {
        lemma_band_region_in_bounds(width as int, height as int, workers as int, k as int);
        lemma_band_len_le_quota(width as int, height as int, workers as int);
        assert((width as int) * (height as int) * 3 == buffer_len(width as int, height as int))
            by (nonlinear_arith);
    }
    let total: usize = (width as usize) * (height as usize) * 3;
    let quota: usize = total / (workers as usize);
    ((workers - k - 1) as usize) * quota
}

/// The shared image buffer: three bytes per pixel, allocated zeroed before
/// the workers start and handed to the external encoder once, after they are
/// all done.
pub struct FrameBuffer {
    width: u32,
    height: u32,
    data: Vec<u8>,
}

impl View for FrameBuffer {
    type V = Seq<u8>;

    closed spec fn view(&self) -> Seq<u8> {
        self.data@
    }
}

impl FrameBuffer {
    pub closed spec fn width(self) -> u32 {
        self.width
    }

    pub closed spec fn height(self) -> u32 {
        self.height
    }

    pub open spec fn wf(self) -> bool {
        self@.len() == buffer_len(self.width() as int, self.height() as int)
    }

    /// A zero-filled buffer for a `width` x `height` image. Zero is the
    /// sentinel: a byte no worker writes keeps it.
    pub fn new(width: u32, height: u32) -> (r: FrameBuffer)
        requires
            buffer_len(width as int, height as int) <= usize::MAX,
        ensures
            r.wf(),
            r.width() == width,
            r.height() == height,
            forall|p: int| 0 <= p < r@.len() ==> r@[p] == 0u8,
    {
        proof {
            assert((width as int) * (height as int) * 3 == buffer_len(
                width as int,
                height as int,
            )) by (nonlinear_arith);
        }
        let total: usize = (width as usize) * (height as usize) * 3;
        let mut data: Vec<u8> = Vec::new();
        while data.len() < total
            invariant
                data@.len() <= total,
                forall|p: int| 0 <= p < data@.len() ==> data@[p] == 0u8,
            decreases total - data@.len(),
        {
            data.push(0);
        }
        FrameBuffer { width, height, data }
    }

    /// Copy one worker's band into its region of the buffer; every byte
    /// outside the region keeps its value.
    pub fn install_band(&mut self, offset: usize, band: &Vec<u8>)
        requires
            old(self).wf(),
            offset + band@.len() <= old(self)@.len(),
        ensures
            final(self).wf(),
            final(self).width() == old(self).width(),
            final(self).height() == old(self).height(),
            final(self)@.len() == old(self)@.len(),
            forall|i: int| 0 <= i < band@.len() ==> final(self)@[offset + i] == band@[i],
            forall|p: int|
                0 <= p < old(self)@.len() && !(offset <= p < offset + band@.len())
                    ==> final(self)@[p] == old(self)@[p],
    {
        let n: usize = self.data.len();
        let mut i: usize = 0;
        while i < band.len()
            invariant
                i <= band@.len(),
                offset + band@.len() <= n,
                n == self@.len(),
                self@.len() == old(self)@.len(),
                self.width == old(self).width,
                self.height == old(self).height,
                forall|j: int| 0 <= j < i ==> self@[offset + j] == band@[j],
                forall|p: int|
                    0 <= p < self@.len() && !(offset <= p < offset + i)
                        ==> self@[p] == old(self)@[p],
            decreases band@.len() - i,
        {
            self.data[offset + i] = band[i];
            i += 1;
        }
    }

    /// Hand the finished bytes over, for the external encoder.
    pub fn into_bytes(self) -> (r: Vec<u8>)
        ensures
            r@ == self@,
    {
        self.data
    }
}

/// One worker's private part of the image: the pixels of its row band,
/// appended three bytes at a time. Workers fill their own band and never
/// touch another's, so no locking is needed.
pub struct BandBuffer {
    width: u32,
    rows: u32,
    data: Vec<u8>,
}

impl View for BandBuffer {
    type V = Seq<u8>;

    closed spec fn view(&self) -> Seq<u8> {
        self.data@
    }
}

impl BandBuffer {
    pub closed spec fn width(self) -> u32 {
        self.width
    }

    pub closed spec fn rows(self) -> u32 {
        self.rows
    }

    /// Bytes the band holds once every pixel is written.
    pub open spec fn capacity(self) -> int {
        3 * self.width() * self.rows()
    }

    pub open spec fn wf(self) -> bool {
        self@.len() <= self.capacity() <= usize::MAX
    }

    /// An empty band for `rows` rows of `width` pixels.
    pub fn new(width: u32, rows: u32) -> (r: BandBuffer)
        requires
            3 * width * rows <= usize::MAX,
        ensures
            r.wf(),
            r.width() == width,
            r.rows() == rows,
            r@ == Seq::<u8>::empty(),
    {
        BandBuffer { width, rows, data: Vec::new() }
    }

    /// Append one pixel's red, green and blue channels, in that order.
    pub fn push_pixel(&mut self, red: u8, green: u8, blue: u8)
        requires
            old(self).wf(),
            old(self)@.len() + 3 <= old(self).capacity(),
        ensures
            final(self).wf(),
            final(self).width() == old(self).width(),
            final(self).rows() == old(self).rows(),
            final(self)@ == old(self)@ + seq![red, green, blue],
    {
        self.data.push(red);
        self.data.push(green);
        self.data.push(blue);
        assert(self@ =~= old(self)@ + seq![red, green, blue]);
    }

    /// How many bytes have been written so far.
    pub fn len(&self) -> (r: usize)
        ensures
            r == self@.len(),
    {
        self.data.len()
    }

    /// The accumulated bytes.
    pub fn bytes(&self) -> (r: &Vec<u8>)
        ensures
            r@ == self@,
    {
        &self.data
    }
}

/// Build the final image from the workers' bands: allocate the zeroed buffer
/// and copy band `k` to its byte offset, which puts worker 0's rows (the
/// bottom of the image) at the end of the buffer. Returns `None` exactly when
/// the bands do not form one complete band per worker.
pub fn assemble_frame(width: u32, height: u32, workers: u32, bands: &Vec<BandBuffer>) -> (r:
    Option<FrameBuffer>)
    requires
        buffer_len(width as int, height as int) <= usize::MAX,
    ensures
        ({
            let blen = band_byte_len(width as int, height as int, workers as int);
            match r {
                Some(fb) => {
                    &&& 1 <= workers
                    &&& bands@.len() == workers
                    &&& forall|k: int| 0 <= k < workers ==> (#[trigger] bands@[k]@).len() == blen
                    &&& fb.wf()
                    &&& fb.width() == width
                    &&& fb.height() == height
                    &&& forall|k: int, i: int|
                        0 <= k < workers && 0 <= i < blen ==> fb@[band_byte_offset(
                            width as int,
                            height as int,
                            workers as int,
                            k,
                        ) + i] == #[trigger] bands@[k]@[i]
                    &&& forall|p: int|
                        0 <= p < fb@.len() && (forall|k: int|
                            0 <= k < workers ==> !in_band(
                                width as int,
                                height as int,
                                workers as int,
                                k,
                                p,
                            )) ==> fb@[p] == 0u8
                },
                None => workers == 0 || bands@.len() != workers || exists|k: int|
                    0 <= k < workers && (#[trigger] bands@[k]@).len() != blen,
            }
        }),
{
    let ghost w = width as int;
    let ghost h = height as int;
    let ghost t = workers as int;
    if workers == 0 {
        return None;
    }
    if bands.len() != workers as usize {
        return None;
    }
    proof {
        lemma_band_len_le_quota(w, h, t);
        lemma_div_mul_le(buffer_len(w, h), t);
        assert(buffer_len(w, h) / t <= t * (buffer_len(w, h) / t)) by (nonlinear_arith)
            requires
                1 <= t,
                0 <= buffer_len(w, h) / t,
        ;
        assert(w * (h / t) * 3 == band_byte_len(w, h, t)) by (nonlinear_arith);
        assert(0 <= w * (h / t) <= band_byte_len(w, h, t)) by (nonlinear_arith)
            requires
                0 <= w,
                0 <= h / t,
        ;
    }
    let expected: usize = (width as usize) * ((height / workers) as usize) * 3;
    let mut k: usize = 0;
    while k < bands.len()
        invariant
            bands@.len() == workers,
            w == width as int,
            h == height as int,
            t == workers as int,
            expected == band_byte_len(w, h, t),
            k <= bands@.len(),
            forall|j: int| 0 <= j < k ==> (#[trigger] bands@[j]@).len() == expected,
        decreases bands@.len() - k,
    {
        let b: &BandBuffer = &bands[k];
        if b.len() != expected {
            assert(0 <= k < workers && bands@[k as int]@.len() != band_byte_len(w, h, t));
            return None;
        }
        k += 1;
    }
    let mut fb = FrameBuffer::new(width, height);
    let mut k: u32 = 0;
    while k < workers
        invariant
            1 <= workers,
            k <= workers,
            bands@.len() == workers,
            buffer_len(w, h) <= usize::MAX,
            w == width as int,
            h == height as int,
            t == workers as int,
            expected == band_byte_len(w, h, t),
            forall|j: int| 0 <= j < workers ==> (#[trigger] bands@[j]@).len() == expected,
            fb.wf(),
            fb.width() == width,
            fb.height() == height,
            forall|j: int, i: int|
                0 <= j < k && 0 <= i < band_byte_len(w, h, t) ==> fb@[band_byte_offset(w, h, t, j)
                    + i] == #[trigger] bands@[j]@[i],
            forall|p: int|
                0 <= p < fb@.len() && (forall|j: int| 0 <= j < k ==> !in_band(w, h, t, j, p))
                    ==> (#[trigger] fb@[p]) == 0u8,
        decreases workers - k,
    {
        let ghost prev = fb;
        let off = band_start_index(width, height, workers, k);
        let b: &BandBuffer = &bands[k as usize];
        fb.install_band(off, b.bytes());
        proof {
            let blen = band_byte_len(w, h, t);
            assert forall|j: int, i: int| 0 <= j < k + 1 && 0 <= i < blen implies fb@[
                band_byte_offset(w, h, t, j) + i] == #[trigger] bands@[j]@[i] by {
                if j < k {
                    // this band's region ends before band j's begins
                    lemma_bands_disjoint(w, h, t, j, k as int);
                    lemma_band_region_in_bounds(w, h, t, j);
                    assert(fb@[band_byte_offset(w, h, t, j) + i] == prev@[band_byte_offset(
                        w,
                        h,
                        t,
                        j,
                    ) + i]);
                }
            };
            assert forall|p: int|
                0 <= p < fb@.len() && (forall|j: int|
                    0 <= j < k + 1 ==> !in_band(w, h, t, j, p)) implies (#[trigger] fb@[p])
                == 0u8 by {
                assert(!in_band(w, h, t, k as int, p));
                assert(fb@[p] == prev@[p]);
                assert(forall|j: int| 0 <= j < k ==> !in_band(w, h, t, j, p));
            };
        }
        k += 1;
    }
    Some(fb)
}

/// Band coverage over rows: when the worker count divides the image height,
/// every image row belongs to the band of exactly one worker.
pub proof fn lemma_row_coverage(height: int, workers: int, y: int)
    requires
        1 <= workers,
        height % workers == 0,
        0 <= y < height,
    ensures
        ({
            let k = y / (height / workers);
            0 <= k < workers && band_start_row(height, workers, k) <= y < band_end_row(
                height,
                workers,
                k,
            )
        }),
        forall|k: int|
            #[trigger] band_start_row(height, workers, k) <= y < band_end_row(height, workers, k)
                ==> k == y / (height / workers),
{
    let q = height / workers;
    vstd::arithmetic::div_mod::lemma_fundamental_div_mod(height, workers);
    vstd::arithmetic::div_mod::lemma_div_pos_is_pos(height, workers);
    assert(height == workers * q);
    assert(q >= 1) by {
        if q == 0 {
            assert(height == workers * 0);
        }
    }
    let k = y / q;
    vstd::arithmetic::div_mod::lemma_fundamental_div_mod(y, q);
    vstd::arithmetic::div_mod::lemma_mod_bound(y, q);
    vstd::arithmetic::div_mod::lemma_div_pos_is_pos(y, q);
    assert(q * (k + 1) == q * k + q) by (nonlinear_arith);
    assert(q * k <= y < q * (k + 1));
    assert(k < workers) by {
        if k >= workers {
            assert(q * workers <= q * k) by (nonlinear_arith)
                requires
                    0 <= q,
                    workers <= k,
            ;
            assert(q * workers == workers * q) by (nonlinear_arith);
        }
    }
    assert forall|k2: int|
        #[trigger] band_start_row(height, workers, k2) <= y < band_end_row(height, workers, k2)
        implies k2 == y / q by {
        assert(q * (k2 + 1) == q * k2 + q) by (nonlinear_arith);
        assert(q * k2 == k2 * q) by (nonlinear_arith);
        vstd::arithmetic::div_mod::lemma_fundamental_div_mod_converse_div(y, q, k2, y - k2 * q);
    }
}

/// Band coverage over bytes: when the worker count divides the image height,
/// the workers' write regions tile the whole buffer, so a fully assembled
/// frame keeps no byte at its zero sentinel merely for want of a writer.
pub proof fn lemma_band_partition(width: int, height: int, workers: int, p: int)
    requires
        0 <= width,
        0 <= height,
        1 <= workers,
        height % workers == 0,
        0 <= p < buffer_len(width, height),
    ensures
        exists|k: int| 0 <= k < workers && in_band(width, height, workers, k, p),
        forall|k1: int, k2: int|
            0 <= k1 < workers && 0 <= k2 < workers && in_band(width, height, workers, k1, p)
                && in_band(width, height, workers, k2, p) ==> k1 == k2,
{
    let total = buffer_len(width, height);
    let q = height / workers;
    let blen = band_byte_len(width, height, workers);
    let quota = total / workers;
    vstd::arithmetic::div_mod::lemma_fundamental_div_mod(height, workers);
    assert(height == workers * q);
    assert(3 * width * height == workers * (3 * width * q)) by (nonlinear_arith)
        requires
            height == workers * q,
    ;
    vstd::arithmetic::div_mod::lemma_div_multiples_vanish(3 * width * q, workers);
    assert(quota == blen);
    assert(blen >= 1) by {
        if blen <= 0 {
            assert(workers * blen <= 0) by (nonlinear_arith)
                requires
                    blen <= 0,
                    workers >= 1,
            ;
        }
    }
    let j = p / blen;
    vstd::arithmetic::div_mod::lemma_fundamental_div_mod(p, blen);
    vstd::arithmetic::div_mod::lemma_mod_bound(p, blen);
    vstd::arithmetic::div_mod::lemma_div_pos_is_pos(p, blen);
    assert(blen * (j + 1) == blen * j + blen) by (nonlinear_arith);
    assert(blen * j <= p < blen * j + blen);
    assert(j < workers) by {
        if j >= workers {
            assert(blen * workers <= blen * j) by (nonlinear_arith)
                requires
                    0 <= blen,
                    workers <= j,
            ;
            assert(workers * blen == blen * workers) by (nonlinear_arith);
        }
    }
    let k = workers - 1 - j;
    assert(band_byte_offset(width, height, workers, k) == j * quota);
    assert(j * blen == blen * j) by (nonlinear_arith);
    assert(0 <= k < workers && in_band(width, height, workers, k, p));
    assert forall|k1: int, k2: int|
        0 <= k1 < workers && 0 <= k2 < workers && in_band(width, height, workers, k1, p)
            && in_band(width, height, workers, k2, p) implies k1 == k2 by {
        if k1 < k2 {
            lemma_bands_disjoint(width, height, workers, k1, k2);
        }
        if k2 < k1 {
            lemma_bands_disjoint(width, height, workers, k2, k1);
        }
    }
}

/// Layout of the finished buffer: when the worker count divides the image
/// height, image row `y` (row 0 at the bottom of the frame) begins at byte
/// `3 * width * (height - 1 - y)` of its worker's region, so the whole buffer
/// runs top row first, as the encoder expects.
pub proof fn lemma_row_layout(width: int, height: int, workers: int, y: int)
    requires
        0 <= width,
        1 <= workers,
        height % workers == 0,
        0 <= y < height,
    ensures
        ({
            let k = y / rows_per_band(height, workers);
            band_byte_offset(width, height, workers, k) + 3 * width * (band_end_row(
                height,
                workers,
                k,
            ) - 1 - y) == 3 * width * (height - 1 - y)
        }),
{
    let q = height / workers;
    vstd::arithmetic::div_mod::lemma_fundamental_div_mod(height, workers);
    assert(height == workers * q);
    assert(3 * width * height == workers * (3 * width * q)) by (nonlinear_arith)
        requires
            height == workers * q,
    ;
    vstd::arithmetic::div_mod::lemma_div_multiples_vanish(3 * width * q, workers);
    lemma_row_coverage(height, workers, y);
    let k = y / q;
    assert((workers - k - 1) * (3 * width * q) + 3 * width * (q * (k + 1) - 1 - y) == 3 * width * (
    height - 1 - y)) by (nonlinear_arith)
        requires
            height == workers * q,
    ;
}

/// Relies on num_cpus::get: the number of logical CPUs available to the
/// process, documented to be at least 1.
#[verifier::external_body]
fn cpu_count() -> (r: usize)
    ensures
        1 <= r,
{
    num_cpus::get()
}

/// Worker count used when the caller does not pick one: one worker per
/// logical CPU, never zero.
pub fn default_thread_count() -> (r: u32)
    ensures
        1 <= r,
{
    let n = cpu_count();
    if n > u32::MAX as usize {
        u32::MAX
    } else {
        n as u32
    }
}

/// Clamp a widened color channel to the 8-bit intensity range.
///
/// Accumulated radiance can exceed the representable range after scaling;
/// clamping before narrowing avoids wrap-around in the stored pixel.
pub fn clamp_channel(v: i64) -> (r: u8)
    ensures
        v < 0 ==> r == 0,
        v > 255 ==> r == 255,
        0 <= v <= 255 ==> r == v,
{
    if v < 0 {
        0
    } else if v > 255 {
        255
    } else {
        v as u8
    }
}

} // verus!
