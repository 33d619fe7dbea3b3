use vstd::prelude::*;

verus! {

/// The largest value of a colour channel in the image.
pub const MAX_COLOR_VALUE: u8 = 255;

/// The longest line of pixel data that the image text holds.
pub const MAX_PPM_LINE_LENGTH: usize = 70;

/// A pixel colour, each channel scaled to `0..=MAX_COLOR_VALUE`.
#[derive(Clone, Copy, Debug, PartialEq, Eq, Structural)]
pub struct Rgb {
    pub red: u8,
    pub green: u8,
    pub blue: u8,
}

pub open spec fn black() -> Rgb {
    Rgb { red: 0, green: 0, blue: 0 }
}

/// A raster of `width * height` pixels, stored row by row.
pub struct Canvas {
    width: usize,
    height: usize,
    pixels: Vec<Rgb>,
}

pub struct CanvasView {
    pub width: nat,
    pub height: nat,
    pub pixels: Seq<Rgb>,
}

impl View for Canvas {
    type V = CanvasView;

    closed spec fn view(&self) -> CanvasView {
        CanvasView { width: self.width as nat, height: self.height as nat, pixels: self.pixels@ }
    }
}

pub open spec fn digit_char(d: nat) -> char {
    ((48 + d) as u8) as char
}

/// The decimal digits of `n`, without leading zeros.
pub open spec fn digits(n: nat) -> Seq<char>
    decreases n,
{
    if n < 10 {
        seq![digit_char(n)]
    } else {
        digits(n / 10).push(digit_char(n % 10))
    }
}

/// Appends one channel's digits to a line of `count` characters: on the same
/// line after a space, or on a new line where it would pass the line length.
pub open spec fn wrap_step(state: (nat, Seq<char>), comp: Seq<char>) -> (nat, Seq<char>) {
    let (count, text) = state;
    if count + comp.len() + 1 > MAX_PPM_LINE_LENGTH {
        (comp.len(), text + seq!['\n'] + comp)
    } else if count != 0 {
        (count + 1 + comp.len(), text + seq![' '] + comp)
    } else {
        (count + comp.len(), text + comp)
    }
}

/// The text of one row of pixels, red, green and blue in turn, with the length
/// of its last line.
pub open spec fn row_layout(px: Seq<Rgb>) -> (nat, Seq<char>)
    decreases px.len(),
{
    if px.len() == 0 {
        (0, Seq::empty())
    } else {
        let p = px.last();
        let s = row_layout(px.drop_last());
        wrap_step(
            wrap_step(wrap_step(s, digits(p.red as nat)), digits(p.green as nat)),
            digits(p.blue as nat),
        )
    }
}

/// Row `r` of a raster of the given width.
pub open spec fn row(px: Seq<Rgb>, width: nat, r: nat) -> Seq<Rgb> {
    px.subrange((r * width) as int, (r * width + width) as int)
}

/// The first `rows` rows, one line group each, separated by line breaks.
pub open spec fn body(px: Seq<Rgb>, width: nat, rows: nat) -> Seq<char>
    decreases rows,
{
    if rows == 0 {
        Seq::empty()
    } else if rows == 1 {
        row_layout(row(px, width, 0)).1
    } else {
        body(px, width, (rows - 1) as nat) + seq!['\n'] + row_layout(
            row(px, width, (rows - 1) as nat),
        ).1
    }
}

/// The plain PPM text of a raster.
pub open spec fn ppm(c: CanvasView) -> Seq<char> {
    seq!['P', '3', '\n'] + digits(c.width) + seq![' '] + digits(c.height) + seq!['\n'] + digits(
        MAX_COLOR_VALUE as nat,
    ) + seq!['\n'] + body(c.pixels, c.width, c.height) + seq!['\n']
}

/// Whether `(x, y)` names a pixel of a raster of the given size.
pub open spec fn in_bounds(c: CanvasView, x: int, y: int) -> bool {
    0 <= x < c.width && 0 <= y < c.height
}

fn digit(d: usize) -> (r: char)
    requires
        d < 10,
    ensures
        r == digit_char(d as nat),
{
    (48u8 + d as u8) as char
}

fn push_decimal(out: &mut Vec<char>, n: usize)
    ensures
        final(out)@ == old(out)@ + digits(n as nat),
    decreases n,
{
    if n >= 10 {
        push_decimal(out, n / 10);
    }
    out.push(digit(n % 10));
}

proof fn lemma_channel_width(n: nat)
    requires
        n <= 255,
    ensures
        1 <= digits(n).len() <= 3,
{
    reveal_with_fuel(digits, 3);
}

fn push_channel(out: &mut Vec<char>, count: usize, value: u8) -> (c: usize)
    requires
        count <= MAX_PPM_LINE_LENGTH,
    ensures
        c <= MAX_PPM_LINE_LENGTH,
        (c as nat, final(out)@) == wrap_step((count as nat, old(out)@), digits(value as nat)),
{
    let mut comp: Vec<char> = Vec::new();
    push_decimal(&mut comp, value as usize);
    proof {
        assert(comp@ =~= digits(value as nat));
        lemma_channel_width(value as nat);
    }
    let len = comp.len();
    if count + len + 1 > MAX_PPM_LINE_LENGTH {
        out.push('\n');
        out.append(&mut comp);
        len
    } else if count != 0 {
        out.push(' ');
        out.append(&mut comp);
        count + 1 + len
    } else {
        out.append(&mut comp);
        count + len
    }
}

fn push_row(out: &mut Vec<char>, px: &Vec<Rgb>, start: usize, end: usize)
    requires
        start <= end <= px@.len(),
    ensures
        final(out)@ == old(out)@ + row_layout(px@.subrange(start as int, end as int)).1,
{
    let ghost base = out@;
    let mut count: usize = 0;
    let mut j: usize = start;
    while j < end
        invariant
            start <= j <= end <= px@.len(),
            count <= MAX_PPM_LINE_LENGTH,
            (count as nat, out@.subrange(base.len() as int, out@.len() as int)) == row_layout(
                px@.subrange(start as int, j as int),
            ),
            base.len() <= out@.len(),
            out@.subrange(0, base.len() as int) == base,
        decreases end - j,
    {
        let p = px[j];
        let ghost before = out@;
        count = push_channel(out, count, p.red);
        count = push_channel(out, count, p.green);
        count = push_channel(out, count, p.blue);
        proof {
            let prev = px@.subrange(start as int, j as int);
            let next = px@.subrange(start as int, j + 1);
            assert(next.drop_last() =~= prev);
            assert(next.last() == p);
            let t0 = before.subrange(base.len() as int, before.len() as int);
            assert(before =~= base + t0);
            let t = row_layout(next).1;
            assert(out@ =~= base + t);
            assert(out@.subrange(base.len() as int, out@.len() as int) =~= t);
            assert(out@.subrange(0, base.len() as int) =~= base);
        }
        j = j + 1;
    }
    proof {
        assert(out@ =~= base + out@.subrange(base.len() as int, out@.len() as int));
    }
}

/// Relies on `String::from_iter`: collecting characters into a `String` keeps
/// them, in order.
#[verifier::external_body]
fn string_of(chars: Vec<char>) -> (r: String)
    ensures
        r@ == chars@,
{
    String::from_iter(chars)
}

impl Canvas {
    pub open spec fn wf(&self) -> bool {
        self@.pixels.len() == self@.width * self@.height
    }

    /// A raster of the given size, all black.
    pub fn new(width: usize, height: usize) -> (r: Canvas)
        requires
            width * height <= usize::MAX,
        ensures
            r.wf(),
            r@.width == width,
            r@.height == height,
            r@.pixels == Seq::new((width * height) as nat, |i: int| black()),
    {
        let n = width * height;
        let mut pixels: Vec<Rgb> = Vec::new();
        let mut i: usize = 0;
        while i < n
            invariant
                i <= n,
                pixels@ == Seq::new(i as nat, |k: int| black()),
            decreases n - i,
        {
            pixels.push(Rgb { red: 0, green: 0, blue: 0 });
            i = i + 1;
            proof {
                assert(pixels@ =~= Seq::new(i as nat, |k: int| black()));
            }
        }
        Canvas { width, height, pixels }
    }

    pub fn width(&self) -> (r: usize)
        ensures
            r == self@.width,
    {
        self.width
    }

    pub fn height(&self) -> (r: usize)
        ensures
            r == self@.height,
    {
        self.height
    }

    fn get_index(&self, x: i32, y: i32) -> (r: Option<usize>)
        requires
            self.wf(),
        ensures
            r matches Some(i) ==> in_bounds(self@, x as int, y as int) && i == x + y * self@.width
                && i < self@.pixels.len(),
            r is None ==> !in_bounds(self@, x as int, y as int),
    {
        if 0 <= x && (x as usize) < self.width && 0 <= y && (y as usize) < self.height {
            let ghost w = self.width as int;
            let ghost h = self.height as int;
            proof {
                assert((y as int) * w + x < h * w) by (nonlinear_arith)
                    requires
                        0 <= x < w,
                        0 <= y < h,
                ;
                assert(h * w == w * h) by (nonlinear_arith);
                assert((y as int) * w <= (y as int) * w + x);
            }
            let n = self.pixels.len();
            let xu = x as usize;
            let yu = y as usize;
            assert(yu * self.width + xu < self.pixels@.len());
            Some(xu + yu * self.width)
        } else {
            None
        }
    }

    /// Sets the pixel at column `x`, row `y`; a position outside the raster is
    /// ignored.
    pub fn write_pixel(&mut self, x: i32, y: i32, color: Rgb)
        requires
            old(self).wf(),
        ensures
            final(self).wf(),
            final(self)@.width == old(self)@.width,
            final(self)@.height == old(self)@.height,
            final(self)@.pixels == (if in_bounds(old(self)@, x as int, y as int) {
                old(self)@.pixels.update(x + y * old(self)@.width, color)
            } else {
                old(self)@.pixels
            }),
    {
        if let Some(index) = self.get_index(x, y) {
            self.pixels.set(index, color);
        }
    }

    /// The colour of the pixel at column `x`, row `y`, if there is one.
    pub fn pixel_at(&self, x: i32, y: i32) -> (r: Option<Rgb>)
        requires
            self.wf(),
        ensures
            r == (if in_bounds(self@, x as int, y as int) {
                Some(self@.pixels[x + y * self@.width])
            } else {
                None
            }),
    {
        match self.get_index(x, y) {
            Some(index) => Some(self.pixels[index]),
            None => None,
        }
    }

    /// The raster as plain PPM text: a header with the size and the largest
    /// channel value, then each row's channels, lines wrapped before they pass
    /// `MAX_PPM_LINE_LENGTH` characters.
    pub fn to_ppm(&self) -> (r: String)
        requires
            self.wf(),
            self@.width > 0,
        ensures
            r@ == ppm(self@),
    {
        let mut out: Vec<char> = Vec::new();
        out.push('P');
        out.push('3');
        out.push('\n');
        push_decimal(&mut out, self.width);
        out.push(' ');
        push_decimal(&mut out, self.height);
        out.push('\n');
        push_decimal(&mut out, MAX_COLOR_VALUE as usize);
        out.push('\n');
        let ghost header = out@;
        let ghost px = self.pixels@;
        let ghost w = self.width as nat;
        let mut r: usize = 0;
        let mut start: usize = 0;
        while r < self.height
            invariant
                self.wf(),
                px == self.pixels@,
                w == self.width,
                r <= self.height,
                start == r * w,
                start <= px.len(),
                out@ == header + body(px, w, r as nat),
            decreases self.height - r,
        {
            proof {
                assert((r + 1) * w <= self.height * w) by (nonlinear_arith)
                    requires
                        r + 1 <= self.height,
                ;
                assert((r + 1) * w == r * w + w) by (nonlinear_arith);
                assert(self.height * w == w * self.height) by (nonlinear_arith);
            }
            let n = self.pixels.len();
            assert(start + self.width <= n);
            if r > 0 {
                out.push('\n');
            }
            push_row(&mut out, &self.pixels, start, start + self.width);
            proof {
                assert(row(px, w, r as nat) =~= px.subrange(start as int, start + w));
                assert(out@ =~= header + body(px, w, (r + 1) as nat));
            }
            start = start + self.width;
            r = r + 1;
        }
        out.push('\n');
        proof {
            assert(out@ =~= ppm(self@));
        }
        string_of(out)
    }
}

} // verus!
