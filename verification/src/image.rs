use vstd::prelude::*;
use image::load_from_memory;

verus! {

/// The position of channel `c` of pixel (`x`, `y`) in the bytes of an RGBA
/// image `width` pixels wide, stored row by row.
pub open spec fn byte_index(width: int, x: int, y: int, c: int) -> int {
    (y * width + x) * 4 + c
}

proof fn lemma_byte_index_bounds(width: int, height: int, x: int, y: int, c: int)
    requires
        0 <= x < width,
        0 <= y < height,
        0 <= c < 4,
    ensures
        0 <= byte_index(width, x, y, c) < width * height * 4,
        byte_index(width, x, y, c) + (4 - c) <= width * height * 4,
{
    assert(0 <= y * width) by (nonlinear_arith)
        requires
            0 <= y,
            0 <= width,
    ;
    assert(y * width + x < width * height) by (nonlinear_arith)
        requires
            0 <= x < width,
            0 <= y < height,
    ;
}

proof fn lemma_byte_index_past_rows(width: int, height: int, x: int, y: int, c: int)
    requires
        0 <= x < width,
        height <= y,
        0 <= height,
        0 <= c < 4,
    ensures
        width * height * 4 <= byte_index(width, x, y, c),
{
    assert(width * height <= y * width + x) by (nonlinear_arith)
        requires
            0 <= x < width,
            0 <= height <= y,
    ;
}

proof fn lemma_byte_index_injective(width: int, x1: int, y1: int, c1: int, x2: int, y2: int, c2: int)
    requires
        0 <= x1 < width,
        0 <= x2 < width,
        0 <= y1,
        0 <= y2,
        0 <= c1 < 4,
        0 <= c2 < 4,
        byte_index(width, x1, y1, c1) == byte_index(width, x2, y2, c2),
    ensures
        x1 == x2,
        y1 == y2,
        c1 == c2,
{
    let p1 = y1 * width + x1;
    let p2 = y2 * width + x2;
    assert(c1 == c2 && p1 == p2) by (nonlinear_arith)
        requires
            p1 * 4 + c1 == p2 * 4 + c2,
            0 <= c1 < 4,
            0 <= c2 < 4,
    ;
    assert(y1 == y2 && x1 == x2) by (nonlinear_arith)
        requires
            y1 * width + x1 == y2 * width + x2,
            0 <= x1 < width,
            0 <= x2 < width,
            0 <= y1,
            0 <= y2,
    ;
}

proof fn lemma_byte_index_all_injective(width: int)
    requires
        0 <= width,
    ensures
        forall|x1: int, y1: int, c1: int, x2: int, y2: int, c2: int|
            0 <= x1 < width && 0 <= x2 < width && 0 <= y1 && 0 <= y2 && 0 <= c1 < 4 && 0 <= c2 < 4 && (x1
                != x2 || y1 != y2 || c1 != c2) ==> #[trigger] byte_index(width, x1, y1, c1) != #[trigger] byte_index(
                width,
                x2,
                y2,
                c2,
            ),
{
    assert forall|x1: int, y1: int, c1: int, x2: int, y2: int, c2: int|
        0 <= x1 < width && 0 <= x2 < width && 0 <= y1 && 0 <= y2 && 0 <= c1 < 4 && 0 <= c2 < 4 && (x1 != x2
            || y1 != y2 || c1 != c2) implies #[trigger] byte_index(width, x1, y1, c1) != #[trigger] byte_index(
        width,
        x2,
        y2,
        c2,
    ) by {
        if byte_index(width, x1, y1, c1) == byte_index(width, x2, y2, c2) {
            lemma_byte_index_injective(width, x1, y1, c1, x2, y2, c2);
        }
    }
}

/// Whether (`x`, `y`) lies in the `w` by `h` rectangle whose corner is (`ox`, `oy`).
pub open spec fn in_rect(x: int, y: int, ox: int, oy: int, w: int, h: int) -> bool {
    ox <= x < ox + w && oy <= y < oy + h
}

/// Channel `c` of pixel (`x`, `y`) of the image `dst` (`dst_w` pixels wide)
/// once the `src_w` by `src_h` image `src` is drawn over it with its corner at
/// (`ox`, `oy`).
pub open spec fn drawn_over(
    dst: Seq<u8>,
    dst_w: int,
    src: Seq<u8>,
    src_w: int,
    src_h: int,
    ox: int,
    oy: int,
    x: int,
    y: int,
    c: int,
) -> u8 {
    if in_rect(x, y, ox, oy, src_w, src_h) {
        src[byte_index(src_w, x - ox, y - oy, c)]
    } else {
        dst[byte_index(dst_w, x, y, c)]
    }
}

/// Copies the `src_w` by `src_h` RGBA image `src` into the `dst_w` by
/// `dst_h` RGBA image `dst`, with its corner at (`ox`, `oy`).
fn draw_over(dst: &mut Vec<u8>, dst_w: u32, dst_h: u32, src: &Vec<u8>, src_w: u32, src_h: u32, ox: u32, oy: u32)
    requires
        old(dst)@.len() == dst_w * dst_h * 4,
        dst_w * dst_h * 4 <= usize::MAX,
        src@.len() == src_w * src_h * 4,
                src_w * src_h * 4 <= usize::MAX,
        ox + src_w <= dst_w,
        oy + src_h <= dst_h,
    ensures
        final(dst)@.len() == old(dst)@.len(),
        forall|x: int, y: int, c: int|
            0 <= x < dst_w && 0 <= y < dst_h && 0 <= c < 4 ==> #[trigger] final(dst)@[byte_index(
                dst_w as int,
                x,
                y,
                c,
            )] == drawn_over(old(dst)@, dst_w as int, src@, src_w as int, src_h as int, ox as int, oy as int, x, y, c),
{
    proof {
        lemma_byte_index_all_injective(dst_w as int);
    }
    let ghost orig = dst@;
    let mut row: u32 = 0;
    while row < src_h
        invariant
            orig == old(dst)@,
            orig.len() == dst_w * dst_h * 4,
                dst_w * dst_h * 4 <= usize::MAX,
            src@.len() == src_w * src_h * 4,
                src_w * src_h * 4 <= usize::MAX,
            ox + src_w <= dst_w,
            oy + src_h <= dst_h,
            dst@.len() == orig.len(),
            row <= src_h,
            forall|x: int, y: int, c: int|
                0 <= x < dst_w && 0 <= y < dst_h && 0 <= c < 4 ==> #[trigger] dst@[byte_index(dst_w as int, x, y, c)]
                    == drawn_over(orig, dst_w as int, src@, src_w as int, row as int, ox as int, oy as int, x, y, c),
            forall|x1: int, y1: int, c1: int, x2: int, y2: int, c2: int|
                0 <= x1 < dst_w && 0 <= x2 < dst_w && 0 <= y1 && 0 <= y2 && 0 <= c1 < 4 && 0 <= c2 < 4 && (x1
                    != x2 || y1 != y2 || c1 != c2) ==> #[trigger] byte_index(dst_w as int, x1, y1, c1)
                    != #[trigger] byte_index(dst_w as int, x2, y2, c2),
        decreases src_h - row,
    {
        let mut col: u32 = 0;
        while col < src_w
            invariant
                orig.len() == dst_w * dst_h * 4,
                dst_w * dst_h * 4 <= usize::MAX,
                src@.len() == src_w * src_h * 4,
                src_w * src_h * 4 <= usize::MAX,
                ox + src_w <= dst_w,
                oy + src_h <= dst_h,
                dst@.len() == orig.len(),
                row < src_h,
                col <= src_w,
                forall|x: int, y: int, c: int|
                    0 <= x < dst_w && 0 <= y < dst_h && 0 <= c < 4 ==> #[trigger] dst@[byte_index(
                        dst_w as int,
                        x,
                        y,
                        c,
                    )] == if y == oy + row && ox <= x < ox + col {
                        src@[byte_index(src_w as int, x - ox, y - oy, c)]
                    } else {
                        drawn_over(orig, dst_w as int, src@, src_w as int, row as int, ox as int, oy as int, x, y, c)
                    },
                forall|x1: int, y1: int, c1: int, x2: int, y2: int, c2: int|
                    0 <= x1 < dst_w && 0 <= x2 < dst_w && 0 <= y1 && 0 <= y2 && 0 <= c1 < 4 && 0 <= c2 < 4 && (x1
                        != x2 || y1 != y2 || c1 != c2) ==> #[trigger] byte_index(dst_w as int, x1, y1, c1)
                        != #[trigger] byte_index(dst_w as int, x2, y2, c2),
            decreases src_w - col,
        {
            let mut chan: usize = 0;
            while chan < 4
                invariant
                    orig.len() == dst_w * dst_h * 4,
                dst_w * dst_h * 4 <= usize::MAX,
                    src@.len() == src_w * src_h * 4,
                src_w * src_h * 4 <= usize::MAX,
                    ox + src_w <= dst_w,
                    oy + src_h <= dst_h,
                    dst@.len() == orig.len(),
                    row < src_h,
                    col < src_w,
                    chan <= 4,
                    forall|x: int, y: int, c: int|
                        0 <= x < dst_w && 0 <= y < dst_h && 0 <= c < 4 ==> #[trigger] dst@[byte_index(
                            dst_w as int,
                            x,
                            y,
                            c,
                        )] == if y == oy + row && (ox <= x < ox + col || (x == ox + col && c < chan)) {
                            src@[byte_index(src_w as int, x - ox, y - oy, c)]
                        } else {
                            drawn_over(orig, dst_w as int, src@, src_w as int, row as int, ox as int, oy as int, x, y, c)
                        },
                    forall|x1: int, y1: int, c1: int, x2: int, y2: int, c2: int|
                        0 <= x1 < dst_w && 0 <= x2 < dst_w && 0 <= y1 && 0 <= y2 && 0 <= c1 < 4 && 0 <= c2 < 4 && (
                        x1 != x2 || y1 != y2 || c1 != c2) ==> #[trigger] byte_index(dst_w as int, x1, y1, c1)
                            != #[trigger] byte_index(dst_w as int, x2, y2, c2),
                decreases 4 - chan,
            {
                let dy = oy + row;
                let dx = ox + col;
                proof {
                    lemma_byte_index_bounds(dst_w as int, dst_h as int, dx as int, dy as int, chan as int);
                    lemma_byte_index_bounds(src_w as int, src_h as int, col as int, row as int, chan as int);
                    assert(dy * dst_w <= byte_index(dst_w as int, dx as int, dy as int, chan as int)) by (nonlinear_arith)
                        requires
                            0 <= dx,
                            0 <= chan,
                            0 <= dy * dst_w,
                    ;
                    assert(row * src_w <= byte_index(src_w as int, col as int, row as int, chan as int)) by (nonlinear_arith)
                        requires
                            0 <= col,
                            0 <= chan,
                            0 <= row * src_w,
                    ;
                    assert(0 <= dy * dst_w) by (nonlinear_arith)
                        requires
                            0 <= dy,
                            0 <= dst_w,
                    ;
                    assert(0 <= row * src_w) by (nonlinear_arith)
                        requires
                            0 <= row,
                            0 <= src_w,
                    ;
                }
                let di = (dy as usize * dst_w as usize + dx as usize) * 4 + chan;
                let si = (row as usize * src_w as usize + col as usize) * 4 + chan;
                let value = src[si];
                let ghost before = dst@;
                dst.set(di, value);
                proof {
                    assert(di == byte_index(dst_w as int, dx as int, dy as int, chan as int));
                    assert(si == byte_index(src_w as int, col as int, row as int, chan as int));
                    assert forall|x: int, y: int, c: int|
                        0 <= x < dst_w && 0 <= y < dst_h && 0 <= c < 4 implies #[trigger] dst@[byte_index(
                            dst_w as int,
                            x,
                            y,
                            c,
                        )] == if y == oy + row && (ox <= x < ox + col || (x == ox + col && c < chan + 1)) {
                            src@[byte_index(src_w as int, x - ox, y - oy, c)]
                        } else {
                            drawn_over(orig, dst_w as int, src@, src_w as int, row as int, ox as int, oy as int, x, y, c)
                        } by {
                        lemma_byte_index_bounds(dst_w as int, dst_h as int, x, y, c);
                        if x == dx && y == dy && c == chan {
                        } else {
                            assert(byte_index(dst_w as int, x, y, c) != byte_index(dst_w as int, dx as int, dy as int, chan as int));
                            assert(dst@[byte_index(dst_w as int, x, y, c)] == before[byte_index(dst_w as int, x, y, c)]);
                        }
                    }
                }
                chan = chan + 1;
            }
            col = col + 1;
        }
        row = row + 1;
    }
}

/// An RGBA image: four bytes per pixel, stored row by row from the top.
pub struct Image {
    data: Vec<u8>,
    width: u32,
    height: u32,
}

impl Image {
    #[verifier::type_invariant]
    spec fn sized(&self) -> bool {
        &&& self.data@.len() == self.width * self.height * 4
        &&& self.width * self.height * 4 <= usize::MAX
    }

    /// The width in pixels.
    pub closed spec fn w(&self) -> u32 {
        self.width
    }

    /// The height in pixels.
    pub closed spec fn h(&self) -> u32 {
        self.height
    }

    /// The bytes of the image, four per pixel, row by row.
    pub closed spec fn bytes(&self) -> Seq<u8> {
        self.data@
    }

    /// A `width` by `height` image whose bytes are all zero.
    pub fn new(width: u32, height: u32) -> (r: Self)
        requires
            width * height * 4 <= usize::MAX,
        ensures
            r.w() == width,
            r.h() == height,
            r.bytes() == Seq::new((width * height * 4) as nat, |i: int| 0u8),
    {
        proof {
            assert(0 <= width * height) by (nonlinear_arith)
                requires
                    0 <= width,
                    0 <= height,
            ;
        }
        let data = vec![0u8; width as usize * height as usize * 4];
        proof {
            assert(data@ =~= Seq::new((width * height * 4) as nat, |i: int| 0u8));
        }
        Self { data, width, height }
    }

    /// An image made from decoded RGBA bytes, or `None` when there are not
    /// exactly four bytes for each of the `width` times `height` pixels.
    pub fn from_rgba8(width: u32, height: u32, data: Vec<u8>) -> (r: Option<Self>)
        ensures
            r is Some <==> data@.len() == width * height * 4,
            r matches Some(img) ==> img.w() == width && img.h() == height && img.bytes() == data@,
    {
        proof {
            assert(width * height <= 0xffff_ffff * 0xffff_ffffint) by (nonlinear_arith)
                requires
                    0 <= width <= 0xffff_ffff,
                    0 <= height <= 0xffff_ffff,
            ;
            assert(0 <= width * height) by (nonlinear_arith)
                requires
                    0 <= width,
                    0 <= height,
            ;
        }
        let expected = width as u128 * height as u128 * 4;
        if data.len() as u128 != expected {
            return None;
        }
        Some(Self { data, width, height })
    }

    pub fn width(&self) -> (r: u32)
        ensures
            r == self.w(),
    {
        self.width
    }

    pub fn height(&self) -> (r: u32)
        ensures
            r == self.h(),
    {
        self.height
    }

    pub fn data(&self) -> (r: &[u8])
        ensures
            r@ == self.bytes(),
            r@.len() == self.w() * self.h() * 4,
    {
        proof {
            use_type_invariant(self);
        }
        self.data.as_slice()
    }

    fn into_parts(self) -> (r: (Vec<u8>, u32, u32))
        ensures
            r.0@ == self.bytes(),
            r.1 == self.w(),
            r.2 == self.h(),
            r.0@.len() == r.1 * r.2 * 4,
            r.1 * r.2 * 4 <= usize::MAX,
    {
        proof {
            use_type_invariant(&self);
        }
        let Image { data, width, height } = self;
        (data, width, height)
    }
}

/// The direction in which an atlas places images one after another.
#[derive(Copy, Clone, Debug, PartialEq, Eq, Structural)]
pub enum ImageAtlasFlow {
    LeftToRight,
    TopToBottom,
}

impl Default for ImageAtlasFlow {
    fn default() -> (r: Self)
        ensures
            r == ImageAtlasFlow::TopToBottom,
    {
        ImageAtlasFlow::TopToBottom
    }
}

/// Where an atlas places an image (`img_w` by `img_h`) and where its flow
/// point goes next: `(x, y, next flow x, next flow y)`. A flow that would
/// leave the 32-bit range starts a new row (left to right) or column (top to
/// bottom) at the atlas's current edge.
pub open spec fn placement(
    flow: ImageAtlasFlow,
    flow_x: u32,
    flow_y: u32,
    atlas_w: u32,
    atlas_h: u32,
    img_w: u32,
    img_h: u32,
) -> (u32, u32, u32, u32) {
    match flow {
        ImageAtlasFlow::LeftToRight => if flow_x + img_w <= u32::MAX {
            (flow_x, flow_y, (flow_x + img_w) as u32, flow_y)
        } else {
            (0, atlas_h, img_w, atlas_h)
        },
        ImageAtlasFlow::TopToBottom => if flow_y + img_h <= u32::MAX {
            (flow_x, flow_y, flow_x, (flow_y + img_h) as u32)
        } else {
            (atlas_w, 0, atlas_w, img_h)
        },
    }
}

pub open spec fn max_int(a: int, b: int) -> int {
    if a >= b {
        a
    } else {
        b
    }
}

/// Channel `c` of pixel (`x`, `y`) of an atlas after an image is placed at
/// (`ox`, `oy`): the image's pixel inside the placed rectangle, the old
/// atlas's pixel inside the old bounds, and zero elsewhere.
pub open spec fn atlas_byte_after(
    old_bytes: Seq<u8>,
    old_w: int,
    old_h: int,
    img: Seq<u8>,
    img_w: int,
    img_h: int,
    ox: int,
    oy: int,
    x: int,
    y: int,
    c: int,
) -> u8 {
    if in_rect(x, y, ox, oy, img_w, img_h) {
        img[byte_index(img_w, x - ox, y - oy, c)]
    } else if x < old_w && y < old_h {
        old_bytes[byte_index(old_w, x, y, c)]
    } else {
        0
    }
}

/// An image that collects other images, placing each after the previous one
/// along its flow and growing as needed.
pub struct ImageAtlas {
    image: Image,
    flow: ImageAtlasFlow,
    flow_x: u32,
    flow_y: u32,
}

impl ImageAtlas {
    /// The atlas image.
    pub closed spec fn atlas(&self) -> Image {
        self.image
    }

    pub closed spec fn flow(&self) -> ImageAtlasFlow {
        self.flow
    }

    /// The point at which the next image is placed.
    pub closed spec fn flow_point(&self) -> (u32, u32) {
        (self.flow_x, self.flow_y)
    }

    pub fn new(flow: ImageAtlasFlow) -> (r: Self)
        ensures
            r.atlas().w() == 0,
            r.atlas().h() == 0,
            r.atlas().bytes().len() == 0,
            r.flow() == flow,
            r.flow_point() == (0u32, 0u32),
    {
        Self { image: Image { data: Vec::new(), width: 0, height: 0 }, flow, flow_y: 0, flow_x: 0 }
    }

    pub fn image(&self) -> (r: &Image)
        ensures
            *r == self.atlas(),
    {
        &self.image
    }

    pub fn width(&self) -> (r: u32)
        ensures
            r == self.atlas().w(),
    {
        self.image.width()
    }

    pub fn height(&self) -> (r: u32)
        ensures
            r == self.atlas().h(),
    {
        self.image.height()
    }

    pub fn data(&self) -> (r: &[u8])
        ensures
            r@ == self.atlas().bytes(),
    {
        self.image.data()
    }

    /// Ends the current row (left to right) or column (top to bottom), so
    /// that the next image starts at the atlas's current edge.
    pub fn next_flow(&mut self)
        ensures
            final(self).atlas() == old(self).atlas(),
            final(self).flow() == old(self).flow(),
            final(self).flow_point() == match old(self).flow() {
                ImageAtlasFlow::LeftToRight => (0u32, old(self).atlas().h()),
                ImageAtlasFlow::TopToBottom => (old(self).atlas().w(), 0u32),
            },
    {
        match self.flow {
            ImageAtlasFlow::LeftToRight => {
                self.flow_y = self.image.height();
                self.flow_x = 0;
            },
            ImageAtlasFlow::TopToBottom => {
                self.flow_x = self.image.width();
                self.flow_y = 0;
            },
        }
    }
    /// Places `image` at the flow point, growing the atlas as needed, and
    /// returns where its top-left corner went. New atlas bytes outside the
    /// placed image and the old atlas are zero.
    /// Whether `image` can be added: its place and the grown atlas fit the
    /// integer types.
    pub fn can_add_image(&self, image: &Image) -> (r: bool)
        ensures
            r == ({
                let (x, y, _, _) = placement(
                    self.flow(),
                    self.flow_point().0,
                    self.flow_point().1,
                    self.atlas().w(),
                    self.atlas().h(),
                    image.w(),
                    image.h(),
                );
                &&& x + image.w() <= u32::MAX
                &&& y + image.h() <= u32::MAX
                &&& max_int(self.atlas().w() as int, x + image.w()) * max_int(self.atlas().h() as int, y + image.h())
                    * 4 <= usize::MAX
            }),
    {
        let iw = image.width() as u64;
        let ih = image.height() as u64;
        let aw = self.image.width() as u64;
        let ah = self.image.height() as u64;
        let fx = self.flow_x as u64;
        let fy = self.flow_y as u64;
        let (x, y) = match self.flow {
            ImageAtlasFlow::LeftToRight => if fx + iw <= 0xffff_ffff {
                (fx, fy)
            } else {
                (0, ah)
            },
            ImageAtlasFlow::TopToBottom => if fy + ih <= 0xffff_ffff {
                (fx, fy)
            } else {
                (aw, 0)
            },
        };
        if x + iw > 0xffff_ffff || y + ih > 0xffff_ffff {
            return false;
        }
        let nw = if aw >= x + iw {
            aw
        } else {
            x + iw
        };
        let nh = if ah >= y + ih {
            ah
        } else {
            y + ih
        };
        proof {
            assert(nw * nh <= 0xffff_ffff * 0xffff_ffff) by (nonlinear_arith)
                requires
                    nw <= 0xffff_ffff,
                    nh <= 0xffff_ffff,
            ;
        }
        (nw as u128) * (nh as u128) * 4 <= usize::MAX as u128
    }

    pub fn add_image(&mut self, image: &Image) -> (r: (u32, u32))
        requires
            ({
                let (x, y, _, _) = placement(
                    old(self).flow(),
                    old(self).flow_point().0,
                    old(self).flow_point().1,
                    old(self).atlas().w(),
                    old(self).atlas().h(),
                    image.w(),
                    image.h(),
                );
                &&& x + image.w() <= u32::MAX
                &&& y + image.h() <= u32::MAX
                &&& max_int(old(self).atlas().w() as int, x + image.w()) * max_int(
                    old(self).atlas().h() as int,
                    y + image.h(),
                ) * 4 <= usize::MAX
            }),
        ensures
            ({
                let (x, y, next_x, next_y) = placement(
                    old(self).flow(),
                    old(self).flow_point().0,
                    old(self).flow_point().1,
                    old(self).atlas().w(),
                    old(self).atlas().h(),
                    image.w(),
                    image.h(),
                );
                let new_w = max_int(old(self).atlas().w() as int, x + image.w());
                let new_h = max_int(old(self).atlas().h() as int, y + image.h());
                &&& r == (x, y)
                &&& final(self).flow() == old(self).flow()
                &&& final(self).flow_point() == (next_x, next_y)
                &&& final(self).atlas().w() == new_w
                &&& final(self).atlas().h() == new_h
                &&& forall|px: int, py: int, c: int|
                    0 <= px < new_w && 0 <= py < new_h && 0 <= c < 4 ==> #[trigger] final(self).atlas().bytes()[byte_index(
                        new_w,
                        px,
                        py,
                        c,
                    )] == atlas_byte_after(
                        old(self).atlas().bytes(),
                        old(self).atlas().w() as int,
                        old(self).atlas().h() as int,
                        image.bytes(),
                        image.w() as int,
                        image.h() as int,
                        x as int,
                        y as int,
                        px,
                        py,
                        c,
                    )
            }),
    {
        proof {
            use_type_invariant(&self.image);
            use_type_invariant(image);
        }
        let img_w = image.width;
        let img_h = image.height;
        let (flow_x, flow_y) = match self.flow {
            ImageAtlasFlow::LeftToRight => match self.flow_x.checked_add(img_w) {
                Some(next) => {
                    let placed = (self.flow_x, self.flow_y);
                    self.flow_x = next;
                    placed
                },
                None => {
                    // Overflow into a new row
                    self.flow_y = self.image.height;
                    self.flow_x = img_w;
                    (0, self.flow_y)
                },
            },
            ImageAtlasFlow::TopToBottom => match self.flow_y.checked_add(img_h) {
                Some(next) => {
                    let placed = (self.flow_x, self.flow_y);
                    self.flow_y = next;
                    placed
                },
                None => {
                    // Overflow into a new column
                    self.flow_x = self.image.width;
                    self.flow_y = img_h;
                    (self.flow_x, 0)
                },
            },
        };
        let empty: Vec<u8> = Vec::new();
        assert(empty@.len() == 0 * 0 * 4);
        let mut taken = Image { data: empty, width: 0, height: 0 };
        std::mem::swap(&mut self.image, &mut taken);
        let ghost old_bytes = taken.data@;
        let (mut data, width, height) = taken.into_parts();
        let new_w: u32;
        let new_h: u32;
        if flow_x + img_w > width {
            // Expand the atlas width (and maybe height) into a new buffer
            new_w = flow_x + img_w;
            new_h = if height >= flow_y + img_h {
                height
            } else {
                flow_y + img_h
            };
            proof {
                assert(0 <= new_w * new_h) by (nonlinear_arith)
                    requires
                        0 <= new_w,
                        0 <= new_h,
                ;
            }
            let mut expanded = vec![0u8; new_w as usize * new_h as usize * 4];
            assert(expanded@.len() == new_w * new_h * 4);
            let ghost zeros = expanded@;
            draw_over(&mut expanded, new_w, new_h, &data, width, height, 0, 0);
            proof {
                assert forall|px: int, py: int, c: int|
                    0 <= px < new_w && 0 <= py < new_h && 0 <= c < 4 implies #[trigger] expanded@[byte_index(
                        new_w as int,
                        px,
                        py,
                        c,
                    )] == if px < width && py < height {
                        old_bytes[byte_index(width as int, px, py, c)]
                    } else {
                        0u8
                    } by {
                    lemma_byte_index_bounds(new_w as int, new_h as int, px, py, c);
                    assert(cloned(0u8, zeros[byte_index(new_w as int, px, py, c)]));
                }
            }
            data = expanded;
        } else if flow_y + img_h > height {
            // Only expand the atlas downwards: new rows are zero
            new_w = width;
            new_h = flow_y + img_h;
            proof {
                assert(0 <= new_w * new_h) by (nonlinear_arith)
                    requires
                        0 <= new_w,
                        0 <= new_h,
                ;
                assert(width * height <= new_w * new_h) by (nonlinear_arith)
                    requires
                        new_w == width,
                        height <= new_h,
                        0 <= width,
                ;
            }
            let ghost before = data@;
            data.resize(new_w as usize * new_h as usize * 4, 0u8);
            proof {
                assert forall|px: int, py: int, c: int|
                    0 <= px < new_w && 0 <= py < new_h && 0 <= c < 4 implies #[trigger] data@[byte_index(
                        new_w as int,
                        px,
                        py,
                        c,
                    )] == if px < width && py < height {
                        old_bytes[byte_index(width as int, px, py, c)]
                    } else {
                        0u8
                    } by {
                    lemma_byte_index_bounds(new_w as int, new_h as int, px, py, c);
                    if py < height {
                        lemma_byte_index_bounds(width as int, height as int, px, py, c);
                        assert(data@[byte_index(new_w as int, px, py, c)] == before[byte_index(new_w as int, px, py, c)]);
                    } else {
                        lemma_byte_index_past_rows(width as int, height as int, px, py, c);
                        assert(cloned(0u8, data@[byte_index(new_w as int, px, py, c)]));
                    }
                }
            }
        } else {
            new_w = width;
            new_h = height;
            proof {
                assert forall|px: int, py: int, c: int|
                    0 <= px < new_w && 0 <= py < new_h && 0 <= c < 4 implies #[trigger] data@[byte_index(
                        new_w as int,
                        px,
                        py,
                        c,
                    )] == if px < width && py < height {
                        old_bytes[byte_index(width as int, px, py, c)]
                    } else {
                        0u8
                    } by {}
            }
        }
        draw_over(&mut data, new_w, new_h, &image.data, img_w, img_h, flow_x, flow_y);
        self.image = Image { data, width: new_w, height: new_h };
        (flow_x, flow_y)
    }
}

/// What an atlas placement writes is read back, and an image placed in an
/// atlas survives the next placement: with `mid` the atlas after `img1` was
/// placed on `old`, each pixel of `img1` still reads as `img1`'s pixel once
/// `img2` is placed after it.
pub proof fn law_earlier_image_survives(
    flow: ImageAtlasFlow,
    flow_x: u32,
    flow_y: u32,
    old: Seq<u8>,
    old_w: u32,
    old_h: u32,
    img1: Seq<u8>,
    w1: u32,
    h1: u32,
    mid: Seq<u8>,
    img2: Seq<u8>,
    w2: u32,
    h2: u32,
    px: int,
    py: int,
    c: int,
)
    requires
        ({
            let (x1, y1, _, _) = placement(flow, flow_x, flow_y, old_w, old_h, w1, h1);
            let mid_w = max_int(old_w as int, x1 + w1);
            let mid_h = max_int(old_h as int, y1 + h1);
            &&& x1 + w1 <= u32::MAX
            &&& y1 + h1 <= u32::MAX
            &&& forall|qx: int, qy: int, k: int|
                0 <= qx < mid_w && 0 <= qy < mid_h && 0 <= k < 4 ==> #[trigger] mid[byte_index(mid_w, qx, qy, k)]
                    == atlas_byte_after(old, old_w as int, old_h as int, img1, w1 as int, h1 as int, x1 as int, y1 as int, qx, qy, k)
        }),
        0 <= px < w1,
        0 <= py < h1,
        0 <= c < 4,
    ensures
        ({
            let (x1, y1, next_x, next_y) = placement(flow, flow_x, flow_y, old_w, old_h, w1, h1);
            let mid_w = max_int(old_w as int, x1 + w1);
            let mid_h = max_int(old_h as int, y1 + h1);
            let (x2, y2, _, _) = placement(flow, next_x, next_y, mid_w as u32, mid_h as u32, w2, h2);
            &&& mid[byte_index(mid_w, x1 + px, y1 + py, c)] == img1[byte_index(w1 as int, px, py, c)]
            &&& atlas_byte_after(mid, mid_w, mid_h, img2, w2 as int, h2 as int, x2 as int, y2 as int, x1 + px, y1 + py, c)
                == img1[byte_index(w1 as int, px, py, c)]
        }),
{
    let (x1, y1, next_x, next_y) = placement(flow, flow_x, flow_y, old_w, old_h, w1, h1);
    let mid_w = max_int(old_w as int, x1 + w1);
    let mid_h = max_int(old_h as int, y1 + h1);
    assert(mid[byte_index(mid_w, x1 + px, y1 + py, c)] == atlas_byte_after(
        old,
        old_w as int,
        old_h as int,
        img1,
        w1 as int,
        h1 as int,
        x1 as int,
        y1 as int,
        x1 + px,
        y1 + py,
        c,
    ));
}

/// A placed rectangle (`x`, `y`, `w`, `h`) lies inside an atlas of `aw` by
/// `ah` pixels and behind its flow point (`fx`, `fy`): above the flow row or
/// left of the flow column, where no later placement reaches.
pub open spec fn placed_behind(fx: int, fy: int, aw: int, ah: int, x: int, y: int, w: int, h: int) -> bool {
    &&& x + w <= aw
    &&& y + h <= ah
    &&& (y + h <= fy || x + w <= fx)
}

/// Two rectangles share no pixel.
pub open spec fn rects_apart(x1: int, y1: int, w1: int, h1: int, x2: int, y2: int, w2: int, h2: int) -> bool {
    x1 + w1 <= x2 || x2 + w2 <= x1 || y1 + h1 <= y2 || y2 + h2 <= y1
}

/// Placements in an atlas never overlap. An image placed earlier lies behind
/// the flow point; the next placement does not overlap it, leaves its pixels
/// as they were, and leaves it, and the newly placed image, behind the new
/// flow point in the grown atlas. By induction, every image ever placed keeps
/// its own rectangle and pixels.
pub proof fn law_placement_keeps_earlier_images(
    flow: ImageAtlasFlow,
    fx: u32,
    fy: u32,
    aw: u32,
    ah: u32,
    atlas: Seq<u8>,
    img: Seq<u8>,
    w2: u32,
    h2: u32,
    x: int,
    y: int,
    w: int,
    h: int,
    px: int,
    py: int,
    c: int,
)
    requires
        placed_behind(fx as int, fy as int, aw as int, ah as int, x, y, w, h),
    ensures
        ({
            let (x2, y2, nx, ny) = placement(flow, fx, fy, aw, ah, w2, h2);
            let nw = max_int(aw as int, x2 + w2);
            let nh = max_int(ah as int, y2 + h2);
            &&& rects_apart(x, y, w, h, x2 as int, y2 as int, w2 as int, h2 as int)
            &&& placed_behind(nx as int, ny as int, nw, nh, x, y, w, h)
            &&& placed_behind(nx as int, ny as int, nw, nh, x2 as int, y2 as int, w2 as int, h2 as int)
            &&& (in_rect(px, py, x, y, w, h) && 0 <= px && 0 <= py ==> atlas_byte_after(
                atlas,
                aw as int,
                ah as int,
                img,
                w2 as int,
                h2 as int,
                x2 as int,
                y2 as int,
                px,
                py,
                c,
            ) == atlas[byte_index(aw as int, px, py, c)])
        }),
{
}

/// Ending the flow's row or column keeps every placed image behind the flow
/// point.
pub proof fn law_next_flow_keeps_earlier_images(
    flow: ImageAtlasFlow,
    fx: u32,
    fy: u32,
    aw: u32,
    ah: u32,
    x: int,
    y: int,
    w: int,
    h: int,
)
    requires
        placed_behind(fx as int, fy as int, aw as int, ah as int, x, y, w, h),
    ensures
        match flow {
            ImageAtlasFlow::LeftToRight => placed_behind(0, ah as int, aw as int, ah as int, x, y, w, h),
            ImageAtlasFlow::TopToBottom => placed_behind(aw as int, 0, aw as int, ah as int, x, y, w, h),
        },
{
}

/// The flow point and size of an atlas, `(flow x, flow y, width, height)`,
/// after a run of calls from a new atlas: `Some((w, h))` adds a `w` by `h`
/// image, `None` ends the flow's row or column.
pub open spec fn atlas_state_after(flow: ImageAtlasFlow, events: Seq<Option<(u32, u32)>>) -> (u32, u32, u32, u32)
    decreases events.len(),
{
    if events.len() == 0 {
        (0, 0, 0, 0)
    } else {
        let (fx, fy, aw, ah) = atlas_state_after(flow, events.drop_last());
        match events.last() {
            None => match flow {
                ImageAtlasFlow::LeftToRight => (0, ah, aw, ah),
                ImageAtlasFlow::TopToBottom => (aw, 0, aw, ah),
            },
            Some((w, h)) => {
                let (x, y, nx, ny) = placement(flow, fx, fy, aw, ah, w, h);
                (nx, ny, max_int(aw as int, x + w) as u32, max_int(ah as int, y + h) as u32)
            },
        }
    }
}

/// Where call `k` of a run placed its image: `(x, y, width, height)`.
pub open spec fn placed_rect(flow: ImageAtlasFlow, events: Seq<Option<(u32, u32)>>, k: int) -> (int, int, int, int) {
    let (fx, fy, aw, ah) = atlas_state_after(flow, events.take(k));
    let (w, h) = events[k].unwrap();
    let (x, y, _, _) = placement(flow, fx, fy, aw, ah, w, h);
    (x as int, y as int, w as int, h as int)
}

/// Every image of a run was placed where it fits the 32-bit range, as
/// `add_image` requires.
pub open spec fn atlas_run_fits(flow: ImageAtlasFlow, events: Seq<Option<(u32, u32)>>) -> bool {
    forall|k: int|
        0 <= k < events.len() && #[trigger] events[k] is Some ==> {
            let (x, y, w, h) = placed_rect(flow, events, k);
            x + w <= u32::MAX && y + h <= u32::MAX
        }
}

proof fn lemma_run_keeps_behind(flow: ImageAtlasFlow, events: Seq<Option<(u32, u32)>>, i: int, n: int)
    requires
        atlas_run_fits(flow, events),
        0 <= i < n <= events.len(),
        events[i] is Some,
    ensures
        ({
            let (fx, fy, aw, ah) = atlas_state_after(flow, events.take(n));
            let (x, y, w, h) = placed_rect(flow, events, i);
            placed_behind(fx as int, fy as int, aw as int, ah as int, x, y, w, h)
        }),
    decreases n,
{
    let (x, y, w, h) = placed_rect(flow, events, i);
    assert(events.take(n).drop_last() =~= events.take(n - 1));
    assert(events.take(n).last() == events[n - 1]);
    let (fx, fy, aw, ah) = atlas_state_after(flow, events.take(n - 1));
    if n == i + 1 {
        assert(events.take(n - 1) =~= events.take(i));
        let (w2, h2) = events[i].unwrap();
        law_placement_keeps_earlier_images(flow, fx, fy, aw, ah, Seq::empty(), Seq::empty(), w2, h2, 0, 0, 0, 0, 0, 0, 0);
    } else {
        lemma_run_keeps_behind(flow, events, i, n - 1);
        match events[n - 1] {
            Some((w2, h2)) => {
                law_placement_keeps_earlier_images(flow, fx, fy, aw, ah, Seq::empty(), Seq::empty(), w2, h2, x, y, w, h, 0, 0, 0);
            },
            None => {
                law_next_flow_keeps_earlier_images(flow, fx, fy, aw, ah, x, y, w, h);
            },
        }
    }
}

/// Over any run of calls on a new atlas, no two placed images overlap, and
/// every placed image stays inside the atlas and behind its flow point.
pub proof fn law_atlas_placements_apart(flow: ImageAtlasFlow, events: Seq<Option<(u32, u32)>>, i: int, j: int)
    requires
        atlas_run_fits(flow, events),
        0 <= i < j < events.len(),
        events[i] is Some,
        events[j] is Some,
    ensures
        ({
            let (x1, y1, w1, h1) = placed_rect(flow, events, i);
            let (x2, y2, w2, h2) = placed_rect(flow, events, j);
            rects_apart(x1, y1, w1, h1, x2, y2, w2, h2)
        }),
        ({
            let (fx, fy, aw, ah) = atlas_state_after(flow, events);
            let (x, y, w, h) = placed_rect(flow, events, i);
            placed_behind(fx as int, fy as int, aw as int, ah as int, x, y, w, h)
        }),
{
    lemma_run_keeps_behind(flow, events, i, j);
    lemma_run_keeps_behind(flow, events, i, events.len() as int);
    assert(events.take(events.len() as int) =~= events);
    let (fx, fy, aw, ah) = atlas_state_after(flow, events.take(j));
    let (x, y, w, h) = placed_rect(flow, events, i);
    let (w2, h2) = events[j].unwrap();
    law_placement_keeps_earlier_images(flow, fx, fy, aw, ah, Seq::empty(), Seq::empty(), w2, h2, x, y, w, h, 0, 0, 0);
}

/// What the `image` crate (built to read PNG) makes of an encoded image:
/// its width, its height and its pixels as RGBA bytes row by row, or the
/// text of its error.
pub uninterp spec fn png_decoded(bytes: Seq<u8>) -> Result<(u32, u32, Seq<u8>), Seq<char>>;

/// `image::load_from_memory`, then the RGBA bytes of what it decoded; an
/// error is given by its text. The result is a function of the bytes alone,
/// named `png_decoded`; nothing more of the decoder is stated.
#[verifier::external_body]
fn decode_rgba8(bytes: &[u8]) -> (r: Result<(u32, u32, Vec<u8>), String>)
    ensures
        match r {
            Ok((w, h, data)) => png_decoded(bytes@) == Ok::<(u32, u32, Seq<u8>), Seq<char>>((w, h, data@)),
            Err(e) => png_decoded(bytes@) == Err::<(u32, u32, Seq<u8>), Seq<char>>(e@),
        },
{
    match load_from_memory(bytes) {
        Ok(input) => Ok((input.width(), input.height(), input.to_rgba8().into_raw())),
        Err(err) => Err(err.to_string()),
    }
}

/// The image that a decoder's result gives: the decoded pixels when there
/// are exactly four bytes for each pixel, the decoder's error text when it
/// failed, and an error about the pixel count otherwise.
pub fn image_from_decoded(decoded: Result<(u32, u32, Vec<u8>), String>) -> (r: Result<Image, String>)
    ensures
        match decoded {
            Ok((w, h, data)) => if data@.len() == w * h * 4 {
                r matches Ok(img) && img.w() == w && img.h() == h && img.bytes() == data@
            } else {
                r matches Err(e) && e@ == "decoded image has an unexpected pixel count"@
            },
            Err(e) => r matches Err(m) && m@ == e@,
        },
{
    match decoded {
        Ok((w, h, data)) => match Image::from_rgba8(w, h, data) {
            Some(img) => Ok(img),
            None => Err("decoded image has an unexpected pixel count".to_string()),
        },
        Err(e) => Err(e),
    }
}

/// Decodes an encoded image (PNG) into RGBA pixels.
pub fn decode_image(bytes: &[u8]) -> (r: Result<Image, String>)
    ensures
        match png_decoded(bytes@) {
            Ok((w, h, data)) => if data.len() == w * h * 4 {
                r matches Ok(img) && img.w() == w && img.h() == h && img.bytes() == data
            } else {
                r matches Err(e) && e@ == "decoded image has an unexpected pixel count"@
            },
            Err(e) => r matches Err(m) && m@ == e,
        },
{
    image_from_decoded(decode_rgba8(bytes))
}

} // verus!
