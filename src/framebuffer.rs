use vstd::prelude::*;
use vstd::string::StringExecFns;

verus! {

/// An RGB colour with 8-bit channels.
#[derive(Clone, Copy, Debug, PartialEq, Eq, Structural)]
pub struct Color {
    pub r: u8,
    pub g: u8,
    pub b: u8,
}

impl Color {
    /// Black: every channel 0.
    pub fn black() -> (r: Color)
        ensures
            r == black_color(),
    {
        Color { r: 0, g: 0, b: 0 }
    }

    /// White: every channel 255.
    pub fn white() -> (r: Color)
        ensures
            r == white_color(),
    {
        Color { r: 255, g: 255, b: 255 }
    }
}

/// The colour used for dead cells and for reads outside the buffer.
pub open spec fn black_color() -> Color {
    Color { r: 0, g: 0, b: 0 }
}

/// The colour used for alive cells.
pub open spec fn white_color() -> Color {
    Color { r: 255, g: 255, b: 255 }
}

/// Two characters per pixel: a full block for white, blanks otherwise.
pub open spec fn glyph(c: Color) -> Seq<char> {
    if c == white_color() {
        seq!['\u{2588}', '\u{2588}']
    } else {
        seq![' ', ' ']
    }
}

/// The control sequence that clears the terminal and homes the cursor.
pub open spec fn clear_home() -> Seq<char> {
    seq!['\u{1b}', '[', '2', 'J', '\u{1b}', '[', '1', ';', '1', 'H']
}

/// The glyphs of the first `n` pixels of row `y`.
pub open spec fn row_text(pixels: Seq<Color>, width: nat, y: nat, n: nat) -> Seq<char>
    decreases n,
{
    if n == 0 {
        Seq::empty()
    } else {
        row_text(pixels, width, y, (n - 1) as nat) + glyph(pixels[y * width + n - 1])
    }
}

/// The first `m` rows, each followed by a newline.
pub open spec fn rows_text(pixels: Seq<Color>, width: nat, m: nat) -> Seq<char>
    decreases m,
{
    if m == 0 {
        Seq::empty()
    } else {
        rows_text(pixels, width, (m - 1) as nat) + row_text(pixels, width, (m - 1) as nat, width)
            + seq!['\n']
    }
}

/// The whole frame as written to a terminal.
pub open spec fn frame_text(pixels: Seq<Color>, width: nat, height: nat) -> Seq<char> {
    clear_home() + rows_text(pixels, width, height)
}

/// A `width` x `height` rectangle of colours, stored row by row.
pub struct Framebuffer {
    width: usize,
    height: usize,
    buffer: Vec<Color>,
}

impl Framebuffer {
    pub closed spec fn spec_width(&self) -> nat {
        self.width as nat
    }

    pub closed spec fn spec_height(&self) -> nat {
        self.height as nat
    }

    /// The colours, pixel (x, y) at index `y * width + x`.
    pub closed spec fn pixels(&self) -> Seq<Color> {
        self.buffer@
    }

    pub closed spec fn wf(&self) -> bool {
        &&& self.width * self.height <= usize::MAX
        &&& self.buffer@.len() == self.width * self.height
    }

    /// A well-formed buffer holds one colour per pixel.
    pub proof fn lemma_pixels_len(&self)
        requires
            self.wf(),
        ensures
            self.pixels().len() == self.spec_width() * self.spec_height(),
            self.spec_width() * self.spec_height() <= usize::MAX,
    {
    }

    /// Allocates a `width` x `height` buffer with every pixel black.
    pub fn new(width: usize, height: usize) -> (r: Self)
        requires
            width * height <= usize::MAX,
        ensures
            r.wf(),
            r.spec_width() == width,
            r.spec_height() == height,
            r.pixels() == Seq::new((width * height) as nat, |i: int| black_color()),
    {
        let n: usize = width * height;
        let buffer: Vec<Color> = vec![Color::black(); n];
        let r = Framebuffer { width, height, buffer };
        assert(r.pixels() =~= Seq::new((width * height) as nat, |i: int| black_color()));
        r
    }

    /// Sets pixel (x, y) to `color`; coordinates outside the buffer change nothing.
    pub fn point(&mut self, x: usize, y: usize, color: Color)
        requires
            old(self).wf(),
        ensures
            final(self).wf(),
            final(self).spec_width() == old(self).spec_width(),
            final(self).spec_height() == old(self).spec_height(),
            final(self).pixels() == if x < old(self).spec_width() && y < old(self).spec_height() {
                old(self).pixels().update(y * old(self).spec_width() + x, color)
            } else {
                old(self).pixels()
            },
    {
        if x < self.width && y < self.height {
            proof {
                lemma_index_in_bounds(x as int, y as int, self.width as int, self.height as int);
            }
            self.buffer.set(y * self.width + x, color);
        }
    }

    /// The colour of pixel (x, y), or black outside the buffer.
    pub fn get_color(&self, x: usize, y: usize) -> (r: Color)
        requires
            self.wf(),
        ensures
            r == if x < self.spec_width() && y < self.spec_height() {
                self.pixels()[y * self.spec_width() + x]
            } else {
                black_color()
            },
    {
        if x < self.width && y < self.height {
            proof {
                lemma_index_in_bounds(x as int, y as int, self.width as int, self.height as int);
            }
            self.buffer[y * self.width + x]
        } else {
            Color::black()
        }
    }

    /// The frame as terminal text: the clear-and-home sequence, then each row
    /// top to bottom, each pixel left to right as its glyph, each row ended by a newline.
    pub fn display(&self) -> (r: String)
        requires
            self.wf(),
        ensures
            r@ == frame_text(self.pixels(), self.spec_width(), self.spec_height()),
    {
        let mut s = String::from_str("\u{1b}[2J\u{1b}[1;1H");
        proof {
            reveal_strlit("\u{1b}[2J\u{1b}[1;1H");
            assert(s@ =~= clear_home());
        }
        let mut y: usize = 0;
        while y < self.height
            invariant
                self.wf(),
                y <= self.height,
                s@ == clear_home() + rows_text(self.pixels(), self.spec_width(), y as nat),
            decreases self.height - y,
        {
            let ghost before = s@;
            let mut x: usize = 0;
            while x < self.width
                invariant
                    self.wf(),
                    y < self.height,
                    x <= self.width,
                    s@ == before + row_text(self.pixels(), self.spec_width(), y as nat, x as nat),
                decreases self.width - x,
            {
                let c = self.get_color(x, y);
                let ghost prev = s@;
                if c == Color::white() {
                    s.append("\u{2588}\u{2588}");
                    proof {
                        reveal_strlit("\u{2588}\u{2588}");
                    }
                } else {
                    s.append("  ");
                    proof {
                        reveal_strlit("  ");
                    }
                }
                proof {
                    assert(s@ =~= prev + glyph(self.pixels()[y * self.spec_width() + x]));
                    assert(s@ =~= before + row_text(self.pixels(), self.spec_width(), y as nat, (x + 1) as nat));
                }
                x = x + 1;
            }
            s.append("\n");
            proof {
                reveal_strlit("\n");
                assert(s@ =~= clear_home() + rows_text(self.pixels(), self.spec_width(), (y + 1) as nat));
            }
            y = y + 1;
        }
        s
    }
}

/// Pixel (x, y) of a `width` x `height` buffer lies at a valid row-major index.
pub proof fn lemma_index_in_bounds(x: int, y: int, width: int, height: int)
    requires
        0 <= x < width,
        0 <= y < height,
    ensures
        0 <= y * width + x < width * height,
{
    assert(0 <= y * width) by (nonlinear_arith)
        requires
            0 <= y,
            0 <= width,
    ;
    assert(y * width + x < width * height) by (nonlinear_arith)
        requires
            0 <= x < width,
            0 <= y < height,
    ;
}

} // verus!
