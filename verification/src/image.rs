use vstd::prelude::*;

verus! {

/// A single-channel image with fixed-point integer samples, row major.
#[derive(Debug)]
pub struct Image {
    width: u32,
    height: u32,
    data: Vec<i128>,
}

/// The mathematical view of an [`Image`]: its dimensions and its samples.
pub struct ImageView {
    pub width: int,
    pub height: int,
    pub data: Seq<i128>,
}

impl ImageView {
    /// Dimensions and sample count agree.
    pub open spec fn wf(self) -> bool {
        self.data.len() == self.width * self.height
        && 0 <= self.width <= u32::MAX
        && 0 <= self.height <= u32::MAX
        && self.width * self.height <= usize::MAX
    }

    /// The sample at column `x`, row `y`; meaningful only in bounds.
    pub open spec fn pix(self, x: int, y: int) -> int {
        self.data[y * self.width + x] as int
    }

    /// The sample at `(x, y)`, or zero outside the image (zero extension).
    pub open spec fn pix0(self, x: int, y: int) -> int {
        if 0 <= x < self.width && 0 <= y < self.height {
            self.pix(x, y)
        } else {
            0
        }
    }

    /// Every sample has magnitude at most `b`.
    pub open spec fn bounded(self, b: int) -> bool {
        forall|k: int| 0 <= k < self.data.len() ==> -b <= #[trigger] self.data[k] as int <= b
    }
}

impl View for Image {
    type V = ImageView;

    closed spec fn view(&self) -> ImageView {
        ImageView { width: self.width as int, height: self.height as int, data: self.data@ }
    }
}

impl Image {
    /// Builds an image of the given dimensions from row-major samples;
    /// `None` when the sample count does not match.
    pub fn from_vec(width: u32, height: u32, data: Vec<i128>) -> (r: Option<Image>)
        ensures
            match r {
                Some(img) => img@.wf()
                    && img@.width == width && img@.height == height && img@.data == data@,
                None => data@.len() != width * height,
            },
    {
        proof {
            assert((width as int) * (height as int) < 0x10000000000000000) by (nonlinear_arith)
                requires width <= 0xffffffffu32, height <= 0xffffffffu32;
        }
        if (width as u128) * (height as u128) == data.len() as u128 {
            assert(data@.len() == width * height);
            Some(Image { width, height, data })
        } else {
            assert(data@.len() != width * height);
            None
        }
    }

    /// An image of the given dimensions with every sample equal to `fill`.
    pub fn new_filled(width: u32, height: u32, fill: i128) -> (r: Image)
        requires
            width * height <= usize::MAX,
        ensures
            r@.wf(),
            r@.width == width,
            r@.height == height,
            forall|k: int| 0 <= k < r@.data.len() ==> r@.data[k] == fill,
    {
        let n: usize = (width as u64 * height as u64) as usize;
        let mut data: Vec<i128> = Vec::new();
        let mut i: usize = 0;
        while i < n
            invariant
                i <= n,
                data@.len() == i,
                forall|k: int| 0 <= k < i ==> data@[k] == fill,
            decreases n - i,
        {
            data.push(fill);
            i += 1;
        }
        assert(n == width * height) by (nonlinear_arith)
            requires n == width as u64 * height as u64;
        Image { width, height, data }
    }

    pub fn width(&self) -> (r: u32)
        ensures r == self@.width,
    {
        self.width
    }

    pub fn height(&self) -> (r: u32)
        ensures r == self@.height,
    {
        self.height
    }

    /// The sample at column `x`, row `y`.
    pub fn get_pixel(&self, x: u32, y: u32) -> (r: i128)
        requires
            self@.wf(),
            x < self@.width,
            y < self@.height,
        ensures
            r == self@.pix(x as int, y as int),
    {
        proof {
            lemma_index_in_range(self@.width, self@.height, x as int, y as int);
            assert(self@.data.len() == self@.width * self@.height);
            assert((y as int) * (self.width as int) + (x as int) < self@.data.len() as int);
            assert((y as int) * (self.width as int) <= (y as int) * (self.width as int) + (x as int));
            assert(self@.width * self@.height <= usize::MAX as int);
        }
        let idx: usize = y as usize * self.width as usize + x as usize;
        self.data[idx]
    }


    /// The image's samples copied into a fresh buffer.
    pub fn duplicate(&self) -> (r: Image)
        ensures r@ == self@,
    {
        let n = self.data.len();
        let mut data: Vec<i128> = Vec::new();
        let mut i: usize = 0;
        while i < n
            invariant
                i <= n,
                n == self@.data.len(),
                data@.len() == i,
                forall|k: int| 0 <= k < i ==> data@[k] == self@.data[k],
            decreases n - i,
        {
            data.push(self.data[i]);
            i += 1;
        }
        proof {
            assert(data@ =~= self@.data);
        }
        Image { width: self.width, height: self.height, data }
    }

    /// Assembles an image from dimensions and a matching sample buffer.
    pub(crate) fn from_parts(width: u32, height: u32, data: Vec<i128>) -> (r: Image)
        requires
            data@.len() == width * height,
        ensures
            r@.wf(),
            r@.width == width,
            r@.height == height,
            r@.data == data@,
    {
        let n = data.len();
        assert(n <= usize::MAX);
        Image { width, height, data }
    }
    /// Reports whether every sample has magnitude at most `b`, as the
    /// matching engine requires of its inputs.
    pub fn check_bounded(&self, b: i128) -> (r: bool)
        requires
            0 <= b,
        ensures
            r == self@.bounded(b as int),
    {
        let n = self.data.len();
        let mut i: usize = 0;
        while i < n
            invariant
                n == self@.data.len(),
                i <= n,
                0 <= b,
                forall|k: int| 0 <= k < i ==> -b <= #[trigger] self@.data[k] as int <= b,
            decreases n - i,
        {
            let v = self.data[i];
            if v < -b || v > b {
                return false;
            }
            i += 1;
        }
        true
    }

    /// The row-major samples.
    pub fn as_raw(&self) -> (r: &Vec<i128>)
        ensures r@ == self@.data,
    {
        &self.data
    }
}

/// Row-major indexing stays within a `width * height` buffer.
pub proof fn lemma_index_in_range(width: int, height: int, x: int, y: int)
    requires
        0 <= x < width,
        0 <= y < height,
    ensures
        0 <= y * width,
        0 <= y * width + x < width * height,
        y * width + x == x + y * width,
{
    assert(0 <= y * width && 0 <= y * width + x < width * height) by (nonlinear_arith)
        requires 0 <= x < width, 0 <= y < height;
}

} // verus!
