//! Pictures as rows of pixels: turning, flipping, cutting out and framing them.

use vstd::prelude::*;

verus! {

/// A picture: its pixels row by row. A pixel takes three bytes for red, green and blue;
/// or four, with one for how opaque it is; or eight, for four values of 16 bits, each
/// with its high byte first.
#[derive(Debug)]
pub struct Raster {
    pub width: u32,
    pub height: u32,
    pub pixel_bytes: u8,
    pub pixels: Vec<u8>,
}

/// Where a value of a pixel stands.
pub open spec fn offset(width: int, pixel_bytes: int, x: int, y: int, c: int) -> int {
    (y * width + x) * pixel_bytes + c
}

proof fn lemma_offset_in_bounds(width: int, height: int, pixel_bytes: int, x: int, y: int, c: int)
    requires
        0 <= x < width,
        0 <= y < height,
        0 <= c < pixel_bytes,
    ensures
        0 <= y * width + x < width * height,
        0 <= offset(width, pixel_bytes, x, y, c) < width * height * pixel_bytes,
{
    assert(0 <= y * width + x < width * height) by (nonlinear_arith)
        requires
            0 <= x < width,
            0 <= y < height,
    ;
    let p = y * width + x;
    let n = width * height;
    assert(0 <= p * pixel_bytes + c < n * pixel_bytes) by (nonlinear_arith)
        requires
            0 <= p < n,
            0 <= c < pixel_bytes,
    ;
}

proof fn lemma_offset_injective(
    width: int,
    pixel_bytes: int,
    x: int,
    y: int,
    c: int,
    x2: int,
    y2: int,
    c2: int,
)
    requires
        0 <= x < width,
        0 <= x2 < width,
        0 <= y,
        0 <= y2,
        0 <= c < pixel_bytes,
        0 <= c2 < pixel_bytes,
        offset(width, pixel_bytes, x, y, c) == offset(width, pixel_bytes, x2, y2, c2),
    ensures
        x == x2,
        y == y2,
        c == c2,
{
    let p = y * width + x;
    let p2 = y2 * width + x2;
    vstd::arithmetic::div_mod::lemma_fundamental_div_mod_converse(
        offset(width, pixel_bytes, x, y, c),
        pixel_bytes,
        p,
        c,
    );
    vstd::arithmetic::div_mod::lemma_fundamental_div_mod_converse(
        offset(width, pixel_bytes, x2, y2, c2),
        pixel_bytes,
        p2,
        c2,
    );
    vstd::arithmetic::div_mod::lemma_fundamental_div_mod_converse(p, width, y, x);
    vstd::arithmetic::div_mod::lemma_fundamental_div_mod_converse(p2, width, y2, x2);
}

proof fn lemma_offset_found(width: int, height: int, pixel_bytes: int, i: int) -> (place: (
    int,
    int,
    int,
))
    requires
        width >= 0,
        height >= 0,
        pixel_bytes > 0,
        0 <= i < width * height * pixel_bytes,
    ensures
        0 <= place.0 < width,
        0 <= place.1 < height,
        0 <= place.2 < pixel_bytes,
        offset(width, pixel_bytes, place.0, place.1, place.2) == i,
{
    let p = i / pixel_bytes;
    let c = i % pixel_bytes;
    vstd::arithmetic::div_mod::lemma_fundamental_div_mod(i, pixel_bytes);
    let n = width * height;
    assert(0 <= p < n) by (nonlinear_arith)
        requires
            i == pixel_bytes * p + c,
            0 <= c < pixel_bytes,
            0 <= i < n * pixel_bytes,
            pixel_bytes > 0,
    ;
    assert(width > 0) by (nonlinear_arith)
        requires
            n == width * height,
            0 < n,
            width >= 0,
    ;
    let y = p / width;
    let x = p % width;
    vstd::arithmetic::div_mod::lemma_fundamental_div_mod(p, width);
    assert(0 <= y < height) by (nonlinear_arith)
        requires
            p == width * y + x,
            0 <= x < width,
            0 <= p < width * height,
    ;
    assert(y * width == width * y) by (nonlinear_arith);
    assert(p * pixel_bytes == pixel_bytes * p) by (nonlinear_arith);
    (x, y, c)
}

impl Raster {
    /// There are as many values as the size asks for.
    pub open spec fn wf(&self) -> bool {
        &&& (self.pixel_bytes == 3 || self.pixel_bytes == 4 || self.pixel_bytes == 8)
        &&& self.pixels@.len() == self.width * self.height * self.pixel_bytes
    }

    /// A byte of a pixel.
    pub open spec fn sample(&self, x: int, y: int, c: int) -> u8 {
        self.pixels@[offset(self.width as int, self.pixel_bytes as int, x, y, c)]
    }

    /// Pictures that look the same.
    pub open spec fn looks_like(&self, other: &Raster) -> bool {
        &&& self.width == other.width
        &&& self.height == other.height
        &&& self.pixel_bytes == other.pixel_bytes
        &&& self.pixels@ == other.pixels@
    }
}

impl Raster {
    /// Whether there are as many values as the size asks for.
    pub fn is_whole(&self) -> (whole: bool)
        ensures
            whole == self.wf(),
    {
        if self.pixel_bytes != 3 && self.pixel_bytes != 4 && self.pixel_bytes != 8 {
            return false;
        }
        assert(0 <= self.width * self.height <= 0xffff_ffff * 0xffff_ffff) by (nonlinear_arith)
            requires
                0 <= self.width <= 0xffff_ffff,
                0 <= self.height <= 0xffff_ffff,
        ;
        let count: u128 = self.width as u128 * self.height as u128;
        let values: u128 = if self.pixel_bytes == 3 {
            count * 3
        } else if self.pixel_bytes == 4 {
            count * 4
        } else {
            count * 8
        };
        values == self.pixels.len() as u128
    }
}

/// Pictures of the same size with the same values everywhere look the same.
proof fn lemma_same_samples(a: Raster, b: Raster)
    requires
        a.wf(),
        b.wf(),
        a.width == b.width,
        a.height == b.height,
        a.pixel_bytes == b.pixel_bytes,
        forall|x: int, y: int, c: int|
            #![trigger a.sample(x, y, c)]
            0 <= x < a.width && 0 <= y < a.height && 0 <= c < a.pixel_bytes ==> a.sample(x, y, c)
                == b.sample(x, y, c),
    ensures
        a.looks_like(&b),
{
    assert forall|i: int| 0 <= i < a.pixels@.len() implies a.pixels@[i] == b.pixels@[i] by {
        let (x, y, c) = lemma_offset_found(
            a.width as int,
            a.height as int,
            a.pixel_bytes as int,
            i,
        );
        assert(a.sample(x, y, c) == b.sample(x, y, c));
    }
    assert(a.pixels@ =~= b.pixels@);
}

/// Ways to turn and flip a picture, turns going clockwise.
#[derive(Clone, Copy, Debug, PartialEq, Eq, Structural)]
pub enum Turn {
    Keep,
    Cw90,
    Cw180,
    Cw270,
    FlipHorizontal,
    FlipVertical,
    Cw90FlipHorizontal,
    Cw270FlipHorizontal,
}

impl Turn {
    /// Turns that exchange width and height.
    pub open spec fn swaps(self) -> bool {
        self == Turn::Cw90 || self == Turn::Cw270 || self == Turn::Cw90FlipHorizontal || self
            == Turn::Cw270FlipHorizontal
    }

    /// The place in the picture, of this size, that a place of the turned picture
    /// shows.
    pub open spec fn source(self, width: int, height: int, x: int, y: int) -> (int, int) {
        match self {
            Turn::Keep => (x, y),
            Turn::Cw90 => (y, height - 1 - x),
            Turn::Cw180 => (width - 1 - x, height - 1 - y),
            Turn::Cw270 => (width - 1 - y, x),
            Turn::FlipHorizontal => (width - 1 - x, y),
            Turn::FlipVertical => (x, height - 1 - y),
            Turn::Cw90FlipHorizontal => (y, x),
            Turn::Cw270FlipHorizontal => (width - 1 - y, height - 1 - x),
        }
    }

    fn exchanges(self) -> (swaps: bool)
        ensures
            swaps == self.swaps(),
    {
        match self {
            Turn::Cw90 | Turn::Cw270 | Turn::Cw90FlipHorizontal | Turn::Cw270FlipHorizontal => true,
            _ => false,
        }
    }

    fn source_of(self, width: u32, height: u32, x: u32, y: u32) -> (place: (u32, u32))
        requires
            self.swaps() ==> x < height && y < width,
            !self.swaps() ==> x < width && y < height,
        ensures
            place.0 == self.source(width as int, height as int, x as int, y as int).0,
            place.1 == self.source(width as int, height as int, x as int, y as int).1,
            place.0 < width,
            place.1 < height,
    {
        match self {
            Turn::Keep => (x, y),
            Turn::Cw90 => (y, height - 1 - x),
            Turn::Cw180 => (width - 1 - x, height - 1 - y),
            Turn::Cw270 => (width - 1 - y, x),
            Turn::FlipHorizontal => (width - 1 - x, y),
            Turn::FlipVertical => (x, height - 1 - y),
            Turn::Cw90FlipHorizontal => (y, x),
            Turn::Cw270FlipHorizontal => (width - 1 - y, height - 1 - x),
        }
    }
}

/// A picture is another one, turned, of which the size and the values are given.
pub open spec fn shows(
    after: Raster,
    width: u32,
    height: u32,
    pixel_bytes: u8,
    values: Seq<u8>,
    turn: Turn,
) -> bool {
    &&& after.width == (if turn.swaps() {
        height
    } else {
        width
    })
    &&& after.height == (if turn.swaps() {
        width
    } else {
        height
    })
    &&& after.pixel_bytes == pixel_bytes
    &&& forall|x: int, y: int, c: int|
        #![trigger after.sample(x, y, c)]
        0 <= x < after.width && 0 <= y < after.height && 0 <= c < pixel_bytes ==> after.sample(x, y, c)
            == values[offset(
            width as int,
            pixel_bytes as int,
            turn.source(width as int, height as int, x, y).0,
            turn.source(width as int, height as int, x, y).1,
            c,
        )]
}

/// A picture is another one, turned.
pub open spec fn is_turned(before: Raster, after: Raster, turn: Turn) -> bool {
    shows(after, before.width, before.height, before.pixel_bytes, before.pixels@, turn)
}

/// A picture is cut out of another one, with its upper left corner at a place.
pub open spec fn is_cut(before: Raster, after: Raster, x: u32, y: u32, w: u32, h: u32) -> bool {
    &&& after.width == w
    &&& after.height == h
    &&& after.pixel_bytes == before.pixel_bytes
    &&& forall|i: int, j: int, c: int|
        #![trigger after.sample(i, j, c)]
        0 <= i < w && 0 <= j < h && 0 <= c < after.pixel_bytes ==> after.sample(i, j, c)
            == before.sample(x + i, y + j, c)
}

fn position(width: u32, height: u32, pixel_bytes: u8, x: u32, y: u32, c: u8, len: usize) -> (at: usize)
    requires
        x < width,
        y < height,
        c < pixel_bytes,
        len == width * height * pixel_bytes,
    ensures
        at == offset(width as int, pixel_bytes as int, x as int, y as int, c as int),
        at < len,
{
    proof {
        lemma_offset_in_bounds(
            width as int,
            height as int,
            pixel_bytes as int,
            x as int,
            y as int,
            c as int,
        );
        let p = y * width + x;
        assert(p * pixel_bytes <= offset(
            width as int,
            pixel_bytes as int,
            x as int,
            y as int,
            c as int,
        ));
        assert(y * width <= p <= p * pixel_bytes) by (nonlinear_arith)
            requires
                p == y * width + x,
                x >= 0,
                y >= 0,
                width >= 0,
                pixel_bytes >= 1,
        ;
    }
    let row: usize = y as usize * width as usize;
    let p: usize = row + x as usize;
    p * pixel_bytes as usize + c as usize
}

/// The values of the turned picture up to a place are there.
spec fn turned_upto(
    before: Raster,
    turn: Turn,
    width: int,
    height: int,
    values: Seq<u8>,
) -> bool {
    forall|x: int, y: int, c: int|
        #![trigger offset(width, before.pixel_bytes as int, x, y, c)]
        0 <= x < width && 0 <= y < height && 0 <= c < before.pixel_bytes && offset(
            width,
            before.pixel_bytes as int,
            x,
            y,
            c,
        ) < values.len() ==> values[offset(width, before.pixel_bytes as int, x, y, c)]
            == before.sample(
            turn.source(before.width as int, before.height as int, x, y).0,
            turn.source(before.width as int, before.height as int, x, y).1,
            c,
        )
}

/// Turns a picture.
pub fn turn_raster(before: &Raster, turn: Turn) -> (after: Raster)
    requires
        before.wf(),
    ensures
        after.wf(),
        is_turned(*before, after, turn),
{
    let (width, height) = if turn.exchanges() {
        (before.height, before.width)
    } else {
        (before.width, before.height)
    };
    let pixel_bytes: u8 = before.pixel_bytes;
    let len: usize = before.pixels.len();
    let mut values: Vec<u8> = Vec::new();
    let mut y: u32 = 0;
    proof {
        assert(width * height == before.width * before.height) by (nonlinear_arith)
            requires
                (width == before.width && height == before.height) || (width == before.height
                    && height == before.width),
        ;
        assert(offset(width as int, pixel_bytes as int, 0, 0, 0) == 0) by (nonlinear_arith);
    }
    while y < height
        invariant
            y <= height,
            before.wf(),
            pixel_bytes == before.pixel_bytes,
            len == before.pixels@.len(),
            width == (if turn.swaps() {
                before.height
            } else {
                before.width
            }),
            height == (if turn.swaps() {
                before.width
            } else {
                before.height
            }),
            width * height == before.width * before.height,
            values@.len() == offset(width as int, pixel_bytes as int, 0, y as int, 0),
            turned_upto(*before, turn, width as int, height as int, values@),
        decreases height - y,
    {
        let mut x: u32 = 0;
        while x < width
            invariant
                x <= width,
                y < height,
                before.wf(),
                pixel_bytes == before.pixel_bytes,
                len == before.pixels@.len(),
                width == (if turn.swaps() {
                    before.height
                } else {
                    before.width
                }),
                height == (if turn.swaps() {
                    before.width
                } else {
                    before.height
                }),
                width * height == before.width * before.height,
                values@.len() == offset(width as int, pixel_bytes as int, x as int, y as int, 0),
                turned_upto(*before, turn, width as int, height as int, values@),
            decreases width - x,
        {
            let (sx, sy) = turn.source_of(before.width, before.height, x, y);
            let mut c: u8 = 0;
            while c < pixel_bytes
                invariant
                    c <= pixel_bytes,
                    x < width,
                    y < height,
                    before.wf(),
                    pixel_bytes == before.pixel_bytes,
                    len == before.pixels@.len(),
                    sx < before.width,
                    sy < before.height,
                    (sx as int, sy as int) == turn.source(
                        before.width as int,
                        before.height as int,
                        x as int,
                        y as int,
                    ),
                    values@.len() == offset(
                        width as int,
                        pixel_bytes as int,
                        x as int,
                        y as int,
                        c as int,
                    ),
                    turned_upto(*before, turn, width as int, height as int, values@),
                decreases pixel_bytes - c,
            {
                let at: usize = position(
                    before.width,
                    before.height,
                    pixel_bytes,
                    sx,
                    sy,
                    c,
                    len,
                );
                let ghost old_values = values@;
                values.push(before.pixels[at]);
                proof {
                    let w = width as int;
                    let ch = pixel_bytes as int;
                    assert forall|x2: int, y2: int, c2: int|
                        #![trigger offset(w, ch, x2, y2, c2)]
                        0 <= x2 < w && 0 <= y2 < height && 0 <= c2 < ch && offset(w, ch, x2, y2, c2)
                            < values@.len() implies values@[offset(w, ch, x2, y2, c2)]
                        == before.sample(
                        turn.source(before.width as int, before.height as int, x2, y2).0,
                        turn.source(before.width as int, before.height as int, x2, y2).1,
                        c2,
                    ) by {
                        lemma_offset_in_bounds(w, height as int, ch, x2, y2, c2);
                        if offset(w, ch, x2, y2, c2) == old_values.len() {
                            lemma_offset_injective(
                                w,
                                ch,
                                x as int,
                                y as int,
                                c as int,
                                x2,
                                y2,
                                c2,
                            );
                        } else {
                            assert(values@[offset(w, ch, x2, y2, c2)] == old_values[offset(
                                w,
                                ch,
                                x2,
                                y2,
                                c2,
                            )]);
                        }
                    }
                }
                c += 1;
            }
            proof {
                let p = y * width + x;
                assert((p + 1) * pixel_bytes == p * pixel_bytes + pixel_bytes) by (nonlinear_arith);
            }
            x += 1;
        }
        proof {
            assert((y + 1) * width == y * width + width) by (nonlinear_arith);
        }
        y += 1;
    }
    proof {
        assert(offset(width as int, pixel_bytes as int, 0, height as int, 0) == width * height
            * pixel_bytes) by (nonlinear_arith);
    }
    let after = Raster { width, height, pixel_bytes, pixels: values };
    proof {
        assert forall|x: int, y: int, c: int|
            #![trigger after.sample(x, y, c)]
            0 <= x < after.width && 0 <= y < after.height && 0 <= c
                < after.pixel_bytes implies after.sample(x, y, c) == before.sample(
            turn.source(before.width as int, before.height as int, x, y).0,
            turn.source(before.width as int, before.height as int, x, y).1,
            c,
        ) by {
            lemma_offset_in_bounds(width as int, height as int, pixel_bytes as int, x, y, c);
            let at = offset(width as int, pixel_bytes as int, x, y, c);
            assert(values@[at] == after.sample(x, y, c));
        }
    }
    after
}

/// The values of the picture that is cut out are there up to a place.
spec fn cut_upto(before: Raster, x0: int, y0: int, width: int, height: int, values: Seq<u8>) -> bool {
    forall|x: int, y: int, c: int|
        #![trigger offset(width, before.pixel_bytes as int, x, y, c)]
        0 <= x < width && 0 <= y < height && 0 <= c < before.pixel_bytes && offset(
            width,
            before.pixel_bytes as int,
            x,
            y,
            c,
        ) < values.len() ==> values[offset(width, before.pixel_bytes as int, x, y, c)]
            == before.sample(x0 + x, y0 + y, c)
}

/// Cuts a rectangle out of a picture.
pub fn cut_raster(before: &Raster, x0: u32, y0: u32, width: u32, height: u32) -> (after: Raster)
    requires
        before.wf(),
        x0 + width <= before.width,
        y0 + height <= before.height,
    ensures
        after.wf(),
        is_cut(*before, after, x0, y0, width, height),
{
    let pixel_bytes: u8 = before.pixel_bytes;
    let len: usize = before.pixels.len();
    let mut values: Vec<u8> = Vec::new();
    let mut y: u32 = 0;
    proof {
        assert(offset(width as int, pixel_bytes as int, 0, 0, 0) == 0) by (nonlinear_arith);
    }
    while y < height
        invariant
            y <= height,
            before.wf(),
            pixel_bytes == before.pixel_bytes,
            len == before.pixels@.len(),
            x0 + width <= before.width,
            y0 + height <= before.height,
            values@.len() == offset(width as int, pixel_bytes as int, 0, y as int, 0),
            cut_upto(*before, x0 as int, y0 as int, width as int, height as int, values@),
        decreases height - y,
    {
        let mut x: u32 = 0;
        while x < width
            invariant
                x <= width,
                y < height,
                before.wf(),
                pixel_bytes == before.pixel_bytes,
                len == before.pixels@.len(),
                x0 + width <= before.width,
                y0 + height <= before.height,
                values@.len() == offset(width as int, pixel_bytes as int, x as int, y as int, 0),
                cut_upto(*before, x0 as int, y0 as int, width as int, height as int, values@),
            decreases width - x,
        {
            let mut c: u8 = 0;
            while c < pixel_bytes
                invariant
                    c <= pixel_bytes,
                    x < width,
                    y < height,
                    before.wf(),
                    pixel_bytes == before.pixel_bytes,
                    len == before.pixels@.len(),
                    x0 + width <= before.width,
                    y0 + height <= before.height,
                    values@.len() == offset(
                        width as int,
                        pixel_bytes as int,
                        x as int,
                        y as int,
                        c as int,
                    ),
                    cut_upto(*before, x0 as int, y0 as int, width as int, height as int, values@),
                decreases pixel_bytes - c,
            {
                let at: usize = position(
                    before.width,
                    before.height,
                    pixel_bytes,
                    x0 + x,
                    y0 + y,
                    c,
                    len,
                );
                let ghost old_values = values@;
                values.push(before.pixels[at]);
                proof {
                    let w = width as int;
                    let ch = pixel_bytes as int;
                    assert forall|x2: int, y2: int, c2: int|
                        #![trigger offset(w, ch, x2, y2, c2)]
                        0 <= x2 < w && 0 <= y2 < height && 0 <= c2 < ch && offset(w, ch, x2, y2, c2)
                            < values@.len() implies values@[offset(w, ch, x2, y2, c2)]
                        == before.sample(x0 + x2, y0 + y2, c2) by {
                        lemma_offset_in_bounds(w, height as int, ch, x2, y2, c2);
                        if offset(w, ch, x2, y2, c2) == old_values.len() {
                            lemma_offset_injective(
                                w,
                                ch,
                                x as int,
                                y as int,
                                c as int,
                                x2,
                                y2,
                                c2,
                            );
                        } else {
                            assert(values@[offset(w, ch, x2, y2, c2)] == old_values[offset(
                                w,
                                ch,
                                x2,
                                y2,
                                c2,
                            )]);
                        }
                    }
                }
                c += 1;
            }
            proof {
                let p = y * width + x;
                assert((p + 1) * pixel_bytes == p * pixel_bytes + pixel_bytes) by (nonlinear_arith);
            }
            x += 1;
        }
        proof {
            assert((y + 1) * width == y * width + width) by (nonlinear_arith);
        }
        y += 1;
    }
    proof {
        assert(offset(width as int, pixel_bytes as int, 0, height as int, 0) == width * height
            * pixel_bytes) by (nonlinear_arith);
    }
    let after = Raster { width, height, pixel_bytes, pixels: values };
    proof {
        assert forall|x: int, y: int, c: int|
            #![trigger after.sample(x, y, c)]
            0 <= x < width && 0 <= y < height && 0 <= c < after.pixel_bytes implies after.sample(
            x,
            y,
            c,
        ) == before.sample(x0 + x, y0 + y, c) by {
            lemma_offset_in_bounds(width as int, height as int, pixel_bytes as int, x, y, c);
            let at = offset(width as int, pixel_bytes as int, x, y, c);
            assert(values@[at] == after.sample(x, y, c));
        }
    }
    after
}

/// Turning by ninety degrees four times leaves a picture as it was.
pub proof fn four_quarter_turns_keep(
    a: Raster,
    b: Raster,
    c: Raster,
    d: Raster,
    e: Raster,
)
    requires
        a.wf(),
        b.wf(),
        c.wf(),
        d.wf(),
        e.wf(),
        is_turned(a, b, Turn::Cw90),
        is_turned(b, c, Turn::Cw90),
        is_turned(c, d, Turn::Cw90),
        is_turned(d, e, Turn::Cw90),
    ensures
        e.looks_like(&a),
        is_turned(a, c, Turn::Cw180),
        is_turned(a, d, Turn::Cw270),
{
    let w = a.width as int;
    let h = a.height as int;
    assert forall|x: int, y: int, k: int|
        #![trigger c.sample(x, y, k)]
        0 <= x < c.width && 0 <= y < c.height && 0 <= k < c.pixel_bytes implies c.sample(x, y, k)
        == a.sample(w - 1 - x, h - 1 - y, k) by {
        let s = Turn::Cw90.source(b.width as int, b.height as int, x, y);
        assert(c.sample(x, y, k) == b.sample(s.0, s.1, k));
        assert(b.sample(s.0, s.1, k) == a.sample(w - 1 - x, h - 1 - y, k));
    }
    assert forall|x: int, y: int, k: int|
        #![trigger d.sample(x, y, k)]
        0 <= x < d.width && 0 <= y < d.height && 0 <= k < d.pixel_bytes implies d.sample(x, y, k)
        == a.sample(w - 1 - y, x, k) by {
        let s = Turn::Cw90.source(c.width as int, c.height as int, x, y);
        assert(d.sample(x, y, k) == c.sample(s.0, s.1, k));
        assert(c.sample(s.0, s.1, k) == a.sample(w - 1 - y, x, k));
    }
    assert forall|x: int, y: int, k: int|
        #![trigger e.sample(x, y, k)]
        0 <= x < e.width && 0 <= y < e.height && 0 <= k < e.pixel_bytes implies e.sample(x, y, k)
        == a.sample(x, y, k) by {
        let s = Turn::Cw90.source(d.width as int, d.height as int, x, y);
        assert(e.sample(x, y, k) == d.sample(s.0, s.1, k));
        assert(d.sample(s.0, s.1, k) == a.sample(x, y, k));
    }
    lemma_same_samples(e, a);
}

/// The turn that takes a turn back.
pub open spec fn back(turn: Turn) -> Turn {
    match turn {
        Turn::Cw90 => Turn::Cw270,
        Turn::Cw270 => Turn::Cw90,
        other => other,
    }
}

/// Every turn can be taken back.
pub proof fn turns_can_be_taken_back(a: Raster, b: Raster, c: Raster, turn: Turn)
    requires
        a.wf(),
        b.wf(),
        c.wf(),
        is_turned(a, b, turn),
        is_turned(b, c, back(turn)),
    ensures
        c.looks_like(&a),
{
    assert forall|x: int, y: int, k: int|
        #![trigger c.sample(x, y, k)]
        0 <= x < c.width && 0 <= y < c.height && 0 <= k < c.pixel_bytes implies c.sample(x, y, k)
        == a.sample(x, y, k) by {
        let s = back(turn).source(b.width as int, b.height as int, x, y);
        assert(c.sample(x, y, k) == b.sample(s.0, s.1, k));
        let t = turn.source(a.width as int, a.height as int, s.0, s.1);
        assert(b.sample(s.0, s.1, k) == a.sample(t.0, t.1, k));
        assert(t == (x, y));
    }
    lemma_same_samples(c, a);
}

/// A value of 16 bits, brought to the nearest one of 8 bits.
pub open spec fn narrowed(high: u8, low: u8) -> u8 {
    ((0x100 * high + low + 128) / 257) as u8
}

/// The values of a picture, of 8 bits and with an opacity: opaque where it had none.
pub open spec fn opaque_values(pixels: Seq<u8>, pixel_bytes: int, count: int) -> Seq<u8> {
    Seq::new(
        (4 * count) as nat,
        |i: int|
            if pixel_bytes == 8 {
                narrowed(pixels[2 * i], pixels[2 * i + 1])
            } else if pixel_bytes == 4 {
                pixels[i]
            } else if i % 4 == 3 {
                255u8
            } else {
                pixels[(i / 4) * 3 + i % 4]
            },
    )
}

/// A picture with values of 8 bits and an opacity: the same, opaque where it had none.
pub open spec fn is_opaque_version(before: Raster, after: Raster) -> bool {
    &&& after.width == before.width
    &&& after.height == before.height
    &&& after.pixel_bytes == 4
    &&& after.pixels@ == opaque_values(
        before.pixels@,
        before.pixel_bytes as int,
        before.width * before.height,
    )
}

fn narrow(high: u8, low: u8) -> (value: u8)
    ensures
        value == narrowed(high, low),
{
    let wide: u32 = 0x100 * (high as u32) + low as u32;
    ((wide + 128) / 257) as u8
}

fn narrow_values(pixels: &[u8]) -> (values: Vec<u8>)
    requires
        pixels@.len() % 2 == 0,
    ensures
        values@.len() == pixels@.len() / 2,
        forall|i: int|
            0 <= i < values@.len() ==> #[trigger] values@[i] == narrowed(
                pixels@[2 * i],
                pixels@[2 * i + 1],
            ),
{
    let mut values: Vec<u8> = Vec::new();
    let mut i: usize = 0;
    let len: usize = pixels.len();
    while i < len
        invariant
            i <= len,
            len == pixels@.len(),
            len % 2 == 0,
            i % 2 == 0,
            values@.len() == i / 2,
            forall|j: int|
                0 <= j < values@.len() ==> #[trigger] values@[j] == narrowed(
                    pixels@[2 * j],
                    pixels@[2 * j + 1],
                ),
        decreases len - i,
    {
        let ghost before = values@;
        assert(i + 1 < len);
        values.push(narrow(pixels[i], pixels[i + 1]));
        proof {
            assert forall|j: int| 0 <= j < values@.len() implies #[trigger] values@[j] == narrowed(
                pixels@[2 * j],
                pixels@[2 * j + 1],
            ) by {
                if j < before.len() {
                    assert(values@[j] == before[j]);
                } else {
                    assert(2 * j == i);
                }
            }
        }
        i += 2;
    }
    values
}

impl Raster {
    /// Brings a picture to values of 8 bits, and gives it an opacity where it has none.
    pub fn into_rgba(self) -> (after: Raster)
        requires
            self.wf(),
        ensures
            after.wf(),
            is_opaque_version(self, after),
    {
        let ghost count = self.width * self.height;
        if self.pixel_bytes == 4 {
            proof {
                assert(self.pixels@.len() == 4 * count);
                assert(self.pixels@ =~= opaque_values(self.pixels@, 4, count));
            }
            return self;
        }
        if self.pixel_bytes == 8 {
            assert(self.pixels@.len() == 8 * count);
            let values = narrow_values(self.pixels.as_slice());
            let after = Raster {
                width: self.width,
                height: self.height,
                pixel_bytes: 4,
                pixels: values,
            };
            assert(after.pixels@ =~= opaque_values(self.pixels@, 8, count));
            return after;
        }
        let mut values: Vec<u8> = Vec::new();
        let len: usize = self.pixels.len();
        let mut i: usize = 0;
        proof {
            assert(len == count * 3);
        }
        while i < len
            invariant
                i <= len,
                len == self.pixels@.len(),
                len == count * 3,
                i % 3 == 0,
                values@.len() == 4 * (i / 3),
                forall|j: int|
                    0 <= j < values@.len() ==> #[trigger] values@[j] == (if j % 4 == 3 {
                        255u8
                    } else {
                        self.pixels@[(j / 4) * 3 + j % 4]
                    }),
            decreases len - i,
        {
            let ghost old_values = values@;
            let ghost p = (i / 3) as int;
            assert(i == 3 * p && i + 2 < len);
            values.push(self.pixels[i]);
            values.push(self.pixels[i + 1]);
            values.push(self.pixels[i + 2]);
            values.push(255);
            proof {
                assert forall|j: int| 0 <= j < values@.len() implies #[trigger] values@[j] == (if j
                    % 4 == 3 {
                    255u8
                } else {
                    self.pixels@[(j / 4) * 3 + j % 4]
                }) by {
                    if j < old_values.len() {
                        assert(values@[j] == old_values[j]);
                    } else {
                        assert(j / 4 == p);
                    }
                }
            }
            i += 3;
        }
        let after = Raster { width: self.width, height: self.height, pixel_bytes: 4, pixels: values };
        assert(after.pixels@ =~= opaque_values(self.pixels@, 3, count));
        after
    }
}

/// The values of a picture, of 8 bits and without its opacity.
pub open spec fn color_values(pixels: Seq<u8>, pixel_bytes: int, count: int) -> Seq<u8> {
    Seq::new(
        (3 * count) as nat,
        |i: int|
            if pixel_bytes == 3 {
                pixels[i]
            } else {
                opaque_values(pixels, pixel_bytes, count)[(i / 3) * 4 + i % 3]
            },
    )
}

impl Raster {
    /// The values of a picture, of 8 bits and without its opacity, which is how it is
    /// exported.
    pub fn rgb_values(&self) -> (values: Vec<u8>)
        requires
            self.wf(),
        ensures
            values@ == color_values(
                self.pixels@,
                self.pixel_bytes as int,
                self.width * self.height,
            ),
    {
        let ghost count = self.width * self.height;
        if self.pixel_bytes == 3 {
            assert(self.pixels@ =~= color_values(self.pixels@, 3, count));
            return crate::paths::copy_bytes(self.pixels.as_slice());
        }
        let rgba = if self.pixel_bytes == 8 {
            assert(self.pixels@.len() == 8 * count);
            narrow_values(self.pixels.as_slice())
        } else {
            crate::paths::copy_bytes(self.pixels.as_slice())
        };
        let mut values: Vec<u8> = Vec::new();
        let len: usize = rgba.len();
        let mut i: usize = 0;
        assert(len == count * 4);
        assert(rgba@ =~= opaque_values(self.pixels@, self.pixel_bytes as int, count));
        while i < len
            invariant
                i <= len,
                len == rgba@.len(),
                len == count * 4,
                i % 4 == 0,
                values@.len() == 3 * (i / 4),
                forall|j: int|
                    0 <= j < values@.len() ==> #[trigger] values@[j] == rgba@[(j / 3) * 4 + j % 3],
            decreases len - i,
        {
            let ghost old_values = values@;
            let ghost p = (i / 4) as int;
            assert(i == 4 * p && i + 3 < len);
            values.push(rgba[i]);
            values.push(rgba[i + 1]);
            values.push(rgba[i + 2]);
            proof {
                assert forall|j: int| 0 <= j < values@.len() implies #[trigger] values@[j]
                    == rgba@[(j / 3) * 4 + j % 3] by {
                    if j < old_values.len() {
                        assert(values@[j] == old_values[j]);
                    } else {
                        assert(j / 3 == p);
                        assert(j % 3 == j - 3 * p);
                    }
                }
            }
            i += 4;
        }
        assert(values@ =~= color_values(self.pixels@, self.pixel_bytes as int, count));
        values
    }
}

/// The colors of a picture are the same before and after it is given an opacity.
pub proof fn colors_survive_opacity(pixels: Seq<u8>, count: int)
    requires
        count >= 0,
        pixels.len() == 3 * count,
    ensures
        color_values(opaque_values(pixels, 3, count), 4, count) == pixels,
{
    assert(color_values(opaque_values(pixels, 3, count), 4, count) =~= pixels);
}

/// The values with red and blue exchanged in every pixel.
pub open spec fn exchanged(pixels: Seq<u8>) -> Seq<u8> {
    Seq::new(
        pixels.len(),
        |i: int|
            if i % 4 == 0 {
                pixels[i + 2]
            } else if i % 4 == 2 {
                pixels[i - 2]
            } else {
                pixels[i]
            },
    )
}

/// The values of a picture with an opacity in the order blue, green, red, opacity,
/// which is how they are drawn on the screen.
pub fn render_preview_image(rgba: &[u8]) -> (bgra: Vec<u8>)
    requires
        rgba@.len() % 4 == 0,
    ensures
        bgra@ == exchanged(rgba@),
{
    let mut bgra: Vec<u8> = Vec::new();
    let mut i: usize = 0;
    while i < rgba.len()
        invariant
            i <= rgba@.len(),
            i % 4 == 0,
            rgba@.len() % 4 == 0,
            bgra@.len() == i,
            forall|j: int| 0 <= j < i ==> #[trigger] bgra@[j] == exchanged(rgba@)[j],
        decreases rgba@.len() - i,
    {
        let end: usize = rgba.len();
        assert(i + 4 <= end);
        bgra.push(rgba[i + 2]);
        bgra.push(rgba[i + 1]);
        bgra.push(rgba[i]);
        bgra.push(rgba[i + 3]);
        i += 4;
    }
    assert(bgra@ =~= exchanged(rgba@));
    bgra
}

/// Exchanging red and blue a second time restores the values.
pub proof fn exchanging_twice_restores(pixels: Seq<u8>)
    requires
        pixels.len() % 4 == 0,
    ensures
        exchanged(exchanged(pixels)) == pixels,
{
    assert(exchanged(exchanged(pixels)) =~= pixels);
}

/// A picture that is white all over.
pub fn white_canvas(width: u32, height: u32) -> (canvas: Raster)
    requires
        width * height * 4 <= usize::MAX,
    ensures
        canvas.wf(),
        canvas.width == width,
        canvas.height == height,
        canvas.pixel_bytes == 4,
        forall|i: int| 0 <= i < canvas.pixels@.len() ==> #[trigger] canvas.pixels@[i] == 255,
{
    proof {
        assert(width * height <= width * height * 4) by (nonlinear_arith)
            requires
                width >= 0,
                height >= 0,
        ;
        assert(width * height * 4 == 4 * (width * height));
    }
    let len: usize = width as usize * height as usize * 4;
    let mut pixels: Vec<u8> = Vec::new();
    let mut i: usize = 0;
    while i < len
        invariant
            i <= len,
            pixels@.len() == i,
            forall|j: int| 0 <= j < i ==> #[trigger] pixels@[j] == 255,
        decreases len - i,
    {
        pixels.push(255);
        i += 1;
    }
    Raster { width, height, pixel_bytes: 4, pixels }
}

/// Pixels are stored row by row, each row from left to right, and the bytes of a pixel one
/// after the other.
pub proof fn pixels_are_stored_row_by_row(width: int, pixel_bytes: int, x: int, y: int, c: int)
    ensures
        offset(width, pixel_bytes, 0, 0, 0) == 0,
        offset(width, pixel_bytes, x, y, c + 1) == offset(width, pixel_bytes, x, y, c) + 1,
        offset(width, pixel_bytes, x + 1, y, c) == offset(width, pixel_bytes, x, y, c)
            + pixel_bytes,
        offset(width, pixel_bytes, width, y, c) == offset(width, pixel_bytes, 0, y + 1, c),
{
    assert((y * width + (x + 1)) * pixel_bytes == (y * width + x) * pixel_bytes + pixel_bytes)
        by (nonlinear_arith);
    assert(y * width + width == (y + 1) * width) by (nonlinear_arith);
    assert(0 * width == 0) by (nonlinear_arith);
    assert((0 * width + 0) * pixel_bytes == 0) by (nonlinear_arith)
        requires
            0 * width == 0,
    ;
}

/// Every pixel keeps its colors when a picture is given an opacity, and is then opaque; one
/// that has an opacity keeps that too. A value of 16 bits becomes one of 8 bits that, spread
/// over the larger range, is as near to it as any.
pub proof fn opacity_is_added_in_full(pixels: Seq<u8>, pixel_bytes: int, count: int, p: int, c: int)
    requires
        pixel_bytes == 3 || pixel_bytes == 4 || pixel_bytes == 8,
        pixels.len() == count * pixel_bytes,
        0 <= p < count,
        0 <= c < 4,
    ensures
        opaque_values(pixels, pixel_bytes, count).len() == 4 * count,
        pixel_bytes == 3 && c < 3 ==> opaque_values(pixels, 3, count)[4 * p + c] == pixels[3 * p
            + c],
        pixel_bytes == 3 && c == 3 ==> opaque_values(pixels, 3, count)[4 * p + c] == 255,
        pixel_bytes == 4 ==> opaque_values(pixels, 4, count)[4 * p + c] == pixels[4 * p + c],
        pixel_bytes == 8 ==> ({
            let wide = 256 * pixels[8 * p + 2 * c] + pixels[8 * p + 2 * c + 1];
            let value = opaque_values(pixels, 8, count)[4 * p + c];
            -128 <= 257 * value - wide <= 128
        }),
{
    assert((4 * p + c) / 4 == p);
    assert((4 * p + c) % 4 == c);
    if pixel_bytes == 8 {
        let high = pixels[8 * p + 2 * c];
        let low = pixels[8 * p + 2 * c + 1];
        assert(2 * (4 * p + c) == 8 * p + 2 * c);
        assert(opaque_values(pixels, 8, count)[4 * p + c] == narrowed(high, low));
        assert((0x100 * high + low + 128) / 257 <= 255);
    }
}

/// What is exported of a pixel are its three colors, whether the picture has an opacity or
/// not.
pub proof fn exported_colors_are_the_shown_ones(
    pixels: Seq<u8>,
    pixel_bytes: int,
    count: int,
    p: int,
    c: int,
)
    requires
        pixel_bytes == 3 || pixel_bytes == 4 || pixel_bytes == 8,
        pixels.len() == count * pixel_bytes,
        0 <= p < count,
        0 <= c < 3,
    ensures
        color_values(pixels, pixel_bytes, count).len() == 3 * count,
        color_values(pixels, pixel_bytes, count)[3 * p + c] == opaque_values(
            pixels,
            pixel_bytes,
            count,
        )[4 * p + c],
{
    assert((3 * p + c) / 3 == p);
    assert((3 * p + c) % 3 == c);
    assert((4 * p + c) / 4 == p);
    assert((4 * p + c) % 4 == c);
}

/// On the screen every pixel has its blue where its red was stored and the other way around,
/// and its green and its opacity where they were.
pub proof fn red_and_blue_are_exchanged(pixels: Seq<u8>, p: int)
    requires
        0 <= p,
        4 * p + 4 <= pixels.len(),
    ensures
        exchanged(pixels)[4 * p] == pixels[4 * p + 2],
        exchanged(pixels)[4 * p + 1] == pixels[4 * p + 1],
        exchanged(pixels)[4 * p + 2] == pixels[4 * p],
        exchanged(pixels)[4 * p + 3] == pixels[4 * p + 3],
{
}

/// Pictures look alike just when they have the same size and the same bytes at every pixel.
pub proof fn pictures_that_look_alike_agree_everywhere(a: Raster, b: Raster)
    requires
        a.wf(),
        b.wf(),
    ensures
        a.looks_like(&b) <==> a.width == b.width && a.height == b.height && a.pixel_bytes
            == b.pixel_bytes && forall|x: int, y: int, c: int|
            0 <= x < a.width && 0 <= y < a.height && 0 <= c < a.pixel_bytes ==> #[trigger] a.sample(
                x,
                y,
                c,
            ) == b.sample(x, y, c),
{
    if a.width == b.width && a.height == b.height && a.pixel_bytes == b.pixel_bytes && (forall|
        x: int,
        y: int,
        c: int,
    |
        0 <= x < a.width && 0 <= y < a.height && 0 <= c < a.pixel_bytes ==> #[trigger] a.sample(
            x,
            y,
            c,
        ) == b.sample(x, y, c)) {
        lemma_same_samples(a, b);
    }
}

/// What is cut out of a picture has the size that was asked for, and every pixel of it is the
/// one that stands as far from the corner of the cut.
pub proof fn cuts_keep_their_pixels(
    before: Raster,
    after: Raster,
    left: u32,
    upper: u32,
    w: u32,
    h: u32,
    x: int,
    y: int,
    c: int,
)
    requires
        is_cut(before, after, left, upper, w, h),
        left <= x < left + w,
        upper <= y < upper + h,
        0 <= c < before.pixel_bytes,
    ensures
        after.width == w,
        after.height == h,
        after.pixel_bytes == before.pixel_bytes,
        after.sample(x - left, y - upper, c) == before.sample(x, y, c),
{
    assert(after.sample(x - left, y - upper, c) == before.sample(
        left + (x - left),
        upper + (y - upper),
        c,
    ));
}

/// A picture that is given an opacity keeps its size and the colors of every pixel, and one
/// that had an opacity keeps all its values.
pub proof fn opaque_versions_show_the_same(before: Raster, after: Raster, p: int, c: int)
    requires
        is_opaque_version(before, after),
        before.pixels@.len() == (before.width * before.height) * before.pixel_bytes,
        0 <= p < before.width * before.height,
        0 <= c < 3,
    ensures
        after.width == before.width,
        after.height == before.height,
        after.pixel_bytes == 4,
        before.pixel_bytes == 3 ==> after.pixels@[4 * p + c] == before.pixels@[3 * p + c]
            && after.pixels@[4 * p + 3] == 255,
        before.pixel_bytes == 4 ==> after.pixels@ == before.pixels@,
{
    let count = before.width * before.height;
    if before.pixel_bytes == 3 {
        opacity_is_added_in_full(before.pixels@, 3, count, p, c);
        opacity_is_added_in_full(before.pixels@, 3, count, p, 3);
    }
    if before.pixel_bytes == 4 {
        assert(after.pixels@ =~= before.pixels@);
    }
}

}
