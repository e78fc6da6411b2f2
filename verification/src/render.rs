//! From colours to an image: how the columns of a picture are shared out
//! among workers, and how a finished column is put into the picture.

use vstd::prelude::*;

verus! {

/// `image::RgbImage`, an image buffer of RGB pixels with eight bits per
/// channel, held out of sight. Nothing is known of a value but what the
/// functions below say.
#[verifier::external_body]
pub struct Canvas {
    img: image::RgbImage,
}

/// The pixels of a canvas, by column and row.
pub uninterp spec fn canvas_pixels(canvas: Canvas) -> Map<(int, int), [u8; 3]>;

/// The width and height of a canvas.
pub uninterp spec fn canvas_size(canvas: Canvas) -> (int, int);

/// `ImageBuffer::new`: a buffer of the given size with every channel of
/// every pixel zero. The call panics when the bytes of the image are more
/// than a vector can hold, which the precondition rules out.
#[verifier::external_body]
fn canvas_new(width: u32, height: u32) -> (canvas: Canvas)
    requires
        3 * width * height <= isize::MAX,
    ensures
        canvas_size(canvas) == (width as int, height as int),
        forall|x: int, y: int|
            0 <= x < width && 0 <= y < height ==> #[trigger] canvas_pixels(canvas)[(x, y)]@
                == seq![0u8, 0u8, 0u8],
{
    Canvas { img: image::ImageBuffer::new(width, height) }
}

/// `ImageBuffer::put_pixel`: sets the pixel in column `x` and row `y` and
/// leaves every other pixel and the size alone. The call panics outside the
/// buffer, which the precondition rules out.
#[verifier::external_body]
fn canvas_put(canvas: &mut Canvas, x: u32, y: u32, rgb: [u8; 3])
    requires
        x < canvas_size(*old(canvas)).0,
        y < canvas_size(*old(canvas)).1,
    ensures
        canvas_size(*final(canvas)) == canvas_size(*old(canvas)),
        canvas_pixels(*final(canvas)) == canvas_pixels(*old(canvas)).insert(
            (x as int, y as int),
            rgb,
        ),
    no_unwind
{
    canvas.img.put_pixel(x, y, image::Rgb(rgb));
}

/// `ImageBuffer::get_pixel`: the pixel in column `x` and row `y`. The call
/// panics outside the buffer, which the precondition rules out.
#[verifier::external_body]
fn canvas_get(canvas: &Canvas, x: u32, y: u32) -> (rgb: [u8; 3])
    requires
        x < canvas_size(*canvas).0,
        y < canvas_size(*canvas).1,
    ensures
        rgb == canvas_pixels(*canvas)[(x as int, y as int)],
{
    canvas.img.get_pixel(x, y).0
}

/// `ImageBuffer::into_raw`: the bytes of the buffer, row after row, three
/// for each pixel.
#[verifier::external_body]
fn canvas_into_raw(canvas: Canvas) -> (bytes: Vec<u8>)
    ensures
        bytes@.len() == 3 * canvas_size(canvas).0 * canvas_size(canvas).1,
        forall|x: int, y: int, c: int|
            0 <= x < canvas_size(canvas).0 && 0 <= y < canvas_size(canvas).1 && 0 <= c < 3
                ==> bytes@[3 * (y * canvas_size(canvas).0 + x) + c] == #[trigger] canvas_pixels(
                canvas,
            )[(x, y)]@[c],
{
    canvas.img.into_raw()
}

/// One finished column of a picture.
pub struct ThreadTemp {
    /// The column.
    pub x: u32,
    /// The colours of the column, from the top row down.
    pub color: Vec<[u8; 3]>,
}

/// The columns `[start, end)` that worker `i` of `thread_num` renders in a
/// picture `width` columns wide.
pub open spec fn spec_column_range(i: u32, width: u32, thread_num: u32) -> (int, int) {
    (i * width / thread_num as int, (i + 1) * width / thread_num as int)
}

/// Decides [`spec_column_range`].
pub fn column_range(i: u32, width: u32, thread_num: u32) -> (range: (u32, u32))
    requires
        i < thread_num,
    ensures
        range.0 == spec_column_range(i, width, thread_num).0,
        range.1 == spec_column_range(i, width, thread_num).1,
        range.0 <= range.1 <= width,
{
    let n: u64 = thread_num as u64;
    let w: u64 = width as u64;
    let k: u64 = i as u64;
    assert(k * w <= (k + 1) * w <= n * w) by (nonlinear_arith)
        requires
            k + 1 <= n,
            0 <= w,
            0 <= k,
    ;
    assert(n * w <= 0xffff_ffff * 0xffff_ffff) by (nonlinear_arith)
        requires
            0 <= n <= 0xffff_ffff,
            0 <= w <= 0xffff_ffff,
    ;
    let start: u64 = k * w / n;
    let end: u64 = (k + 1) * w / n;
    proof {
        lemma_div_bounds(k * w, (k + 1) * w, n * w, n as int, w as int);
    }
    (start as u32, end as u32)
}

/// Division by a positive number keeps the order, and `n * w / n` is `w`.
proof fn lemma_div_bounds(a: int, b: int, c: int, n: int, w: int)
    requires
        n > 0,
        0 <= a <= b <= c,
        c == n * w,
    ensures
        a / n <= b / n <= w,
{
    vstd::arithmetic::div_mod::lemma_div_is_ordered(a, b, n);
    vstd::arithmetic::div_mod::lemma_div_is_ordered(b, c, n);
    vstd::arithmetic::div_mod::lemma_div_multiples_vanish(w, n);
    assert(n * w == w * n) by (nonlinear_arith);
}

/// The column ranges of the workers tile the picture: the first begins at
/// column zero, each begins where the one before ends, and the last ends at
/// the picture's width.
pub proof fn lemma_column_ranges_tile(i: u32, width: u32, thread_num: u32)
    requires
        i < thread_num,
    ensures
        spec_column_range(0, width, thread_num).0 == 0,
        i + 1 < thread_num ==> spec_column_range(i, width, thread_num).1 == spec_column_range(
            (i + 1) as u32,
            width,
            thread_num,
        ).0,
        spec_column_range((thread_num - 1) as u32, width, thread_num).1 == width,
{
    vstd::arithmetic::div_mod::lemma_div_multiples_vanish(width as int, thread_num as int);
    assert(thread_num * width == width * thread_num) by (nonlinear_arith);
    assert(0 * width == 0);
}

/// A picture under construction.
pub struct Picture {
    width: u32,
    height: u32,
    canvas: Canvas,
}

impl Picture {
    #[verifier::type_invariant]
    spec fn inv(self) -> bool {
        canvas_size(self.canvas) == (self.width as int, self.height as int)
    }

    pub closed spec fn spec_width(&self) -> u32 {
        self.width
    }

    pub closed spec fn spec_height(&self) -> u32 {
        self.height
    }

    /// The pixels, by column and row.
    pub closed spec fn pixels(self) -> Map<(int, int), [u8; 3]> {
        canvas_pixels(self.canvas)
    }

    /// Whether a column fits the picture: it lies inside, and it holds a
    /// colour for every row.
    pub open spec fn fits(self, column: ThreadTemp) -> bool {
        column.x < self.spec_width() && column.color@.len() >= self.spec_height()
    }

    /// The pixels after the first `rows` colours of a column have been put
    /// into the picture.
    pub open spec fn with_column(
        pixels: Map<(int, int), [u8; 3]>,
        column: ThreadTemp,
        rows: int,
    ) -> Map<(int, int), [u8; 3]>
        decreases rows,
    {
        if rows <= 0 {
            pixels
        } else {
            Self::with_column(pixels, column, rows - 1).insert(
                (column.x as int, rows - 1),
                column.color@[rows - 1],
            )
        }
    }

    /// A black picture of the given size, or `None` when its bytes would
    /// be more than a vector can hold.
    pub fn new(width: u32, height: u32) -> (p: Option<Self>)
        ensures
            p is Some <==> 3 * width * height <= isize::MAX,
            p matches Some(pic) ==> pic.spec_width() == width && pic.spec_height() == height
                && forall|x: int, y: int|
                0 <= x < width && 0 <= y < height ==> #[trigger] pic.pixels()[(x, y)]@
                    == seq![0u8, 0u8, 0u8],
    {
        let w: u128 = width as u128;
        let h: u128 = height as u128;
        assert(w * h <= 0xffff_ffff * 0xffff_ffff) by (nonlinear_arith)
            requires
                0 <= w <= 0xffff_ffff,
                0 <= h <= 0xffff_ffff,
        ;
        let bytes: u128 = 3 * (w * h);
        assert(bytes == 3 * width * height) by (nonlinear_arith)
            requires
                bytes == 3 * (w * h),
                w == width,
                h == height,
        ;
        if bytes > isize::MAX as u128 {
            return None;
        }
        Some(Self { width, height, canvas: canvas_new(width, height) })
    }

    #[verifier::when_used_as_spec(spec_width)]
    pub fn width(&self) -> (w: u32)
        ensures
            w == self.spec_width(),
    {
        self.width
    }

    #[verifier::when_used_as_spec(spec_height)]
    pub fn height(&self) -> (h: u32)
        ensures
            h == self.spec_height(),
    {
        self.height
    }

    /// The pixel in column `x` and row `y`, if the picture has one there.
    pub fn get_pixel(&self, x: u32, y: u32) -> (rgb: Option<[u8; 3]>)
        ensures
            rgb == if x < self.spec_width() && y < self.spec_height() {
                Some(self.pixels()[(x as int, y as int)])
            } else {
                None
            },
    {
        proof {
            use_type_invariant(self);
        }
        if x < self.width && y < self.height {
            Some(canvas_get(&self.canvas, x, y))
        } else {
            None
        }
    }

    /// Puts a finished column into the picture, row by row from the top. A
    /// column that does not fit is not stored, and the answer is `false`.
    pub fn store_column(&mut self, column: &ThreadTemp) -> (stored: bool)
        ensures
            stored == old(self).fits(*column),
            final(self).spec_width() == old(self).spec_width(),
            final(self).spec_height() == old(self).spec_height(),
            final(self).pixels() == if stored {
                Self::with_column(old(self).pixels(), *column, old(self).spec_height() as int)
            } else {
                old(self).pixels()
            },
    {
        proof {
            use_type_invariant(&*self);
        }
        if column.x >= self.width || column.color.len() < self.height as usize {
            return false;
        }
        let mut y: u32 = 0;
        while y < self.height
            invariant
                y <= self.height,
                self.width == old(self).width,
                self.height == old(self).height,
                column.x < self.width,
                column.color@.len() >= self.height,
                canvas_size(self.canvas) == (self.width as int, self.height as int),
                canvas_pixels(self.canvas) == Self::with_column(
                    canvas_pixels(old(self).canvas),
                    *column,
                    y as int,
                ),
            decreases self.height - y,
        {
            let rgb = column.color[y as usize];
            canvas_put(&mut self.canvas, column.x, y, rgb);
            y += 1;
        }
        true
    }

    /// The bytes of the finished picture, row after row, three for each
    /// pixel.
    pub fn into_raw(self) -> (bytes: Vec<u8>)
        ensures
            bytes@.len() == 3 * self.spec_width() * self.spec_height(),
            forall|x: int, y: int, c: int|
                0 <= x < self.spec_width() && 0 <= y < self.spec_height() && 0 <= c < 3
                    ==> bytes@[3 * (y * self.spec_width() + x) + c] == #[trigger] self.pixels()[(
                    x,
                    y,
                )]@[c],
    {
        proof {
            use_type_invariant(&self);
        }
        canvas_into_raw(self.canvas)
    }
}

/// Sets the pixel of `img` in column `pixel_x` and row `pixel_y`. Outside the
/// picture nothing is written, and the answer is `false`.
pub fn write_color(rgb: [u8; 3], img: &mut Picture, pixel_x: u32, pixel_y: u32) -> (written: bool)
    ensures
        written == (pixel_x < old(img).spec_width() && pixel_y < old(img).spec_height()),
        final(img).spec_width() == old(img).spec_width(),
        final(img).spec_height() == old(img).spec_height(),
        final(img).pixels() == if written {
            old(img).pixels().insert((pixel_x as int, pixel_y as int), rgb)
        } else {
            old(img).pixels()
        },
{
    proof {
        use_type_invariant(&*img);
    }
    if pixel_x < img.width && pixel_y < img.height {
        canvas_put(&mut img.canvas, pixel_x, pixel_y, rgb);
        true
    } else {
        false
    }
}

/// Storing a column sets exactly the pixels of that column, to the column's
/// colours, and leaves every other pixel alone.
pub proof fn lemma_with_column(
    pixels: Map<(int, int), [u8; 3]>,
    column: ThreadTemp,
    rows: int,
    x: int,
    y: int,
)
    requires
        0 <= rows,
    ensures
        Picture::with_column(pixels, column, rows)[(x, y)] == if x == column.x && 0 <= y < rows {
            column.color@[y]
        } else {
            pixels[(x, y)]
        },
    decreases rows,
{
    if rows > 0 {
        lemma_with_column(pixels, column, rows - 1, x, y);
    }
}

} // verus!
