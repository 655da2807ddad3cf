//! The plain-text image format: a header of three lines, `P3`, the width and
//! the height, and `255`; then one line for each pixel, its three channels in
//! decimal, row by row from the top scanline down.

use vstd::prelude::*;

verus! {

/// A pixel: three channels, each from 0 to 255.
#[derive(Clone, Copy, Debug, PartialEq, Eq, Structural)]
pub struct Rgb {
    pub r: u8,
    pub g: u8,
    pub b: u8,
}

/// An image: `height` rows of `width` pixels, the top row first.
#[derive(Debug)]
pub struct Image {
    pub width: u32,
    pub height: u32,
    pub pixels: Vec<Rgb>,
}

/// What an image holds.
pub struct Picture {
    pub width: nat,
    pub height: nat,
    pub pixels: Seq<Rgb>,
}

impl View for Image {
    type V = Picture;

    open spec fn view(&self) -> Picture {
        Picture { width: self.width as nat, height: self.height as nat, pixels: self.pixels@ }
    }
}

impl Picture {
    /// There is one pixel for each place of the grid, and the sides fit the
    /// integers that hold them.
    pub open spec fn wf(self) -> bool {
        &&& self.width <= u32::MAX
        &&& self.height <= u32::MAX
        &&& self.pixels.len() == self.width * self.height
    }
}

impl Picture {
    /// The pixel in `column` of `row`, rows counted from the top and columns
    /// from the left; none outside the grid.
    pub open spec fn pixel_spec(self, column: nat, row: nat) -> Option<Rgb> {
        if column < self.width && row < self.height && row * self.width + column
            < self.pixels.len() {
            Some(self.pixels[(row * self.width + column) as int])
        } else {
            None
        }
    }
}

impl Image {
    /// The image of the given size and pixels, row by row from the top;
    /// none unless there is one pixel for each place of the grid.
    pub fn new(width: u32, height: u32, pixels: Vec<Rgb>) -> (image: Option<Image>)
        ensures
            match image {
                Some(i) => i.width == width && i.height == height && i.pixels == pixels
                    && i@.wf(),
                None => pixels@.len() != width * height,
            },
    {
        assert(width * height <= 0xffff_ffff * 0xffff_ffff) by (nonlinear_arith)
            requires
                width <= 0xffff_ffff,
                height <= 0xffff_ffff,
        ;
        if pixels.len() as u64 == width as u64 * height as u64 {
            Some(Image { width, height, pixels })
        } else {
            None
        }
    }

    /// The pixel in `column` of `row`.
    pub fn pixel(&self, column: u32, row: u32) -> (p: Option<Rgb>)
        ensures
            p == self@.pixel_spec(column as nat, row as nat),
    {
        if column >= self.width || row >= self.height {
            return None;
        }
        assert(row * self.width + column <= 0xffff_ffff * 0xffff_ffff + 0xffff_ffff)
            by (nonlinear_arith)
            requires
                row <= 0xffff_ffff,
                self.width <= 0xffff_ffff,
                column <= 0xffff_ffff,
        ;
        let index: u64 = row as u64 * self.width as u64 + column as u64;
        if index < self.pixels.len() as u64 {
            Some(self.pixels[index as usize])
        } else {
            None
        }
    }
}

/// The decimal digits of `n`, without leading zeros.
pub open spec fn decimal(n: nat) -> Seq<u8>
    decreases n,
{
    if n < 10 {
        seq![(48 + n) as u8]
    } else {
        decimal(n / 10).push((48 + n % 10) as u8)
    }
}

/// The three lines before the pixels.
pub open spec fn header(width: nat, height: nat) -> Seq<u8> {
    seq![80u8, 51u8, 10u8] + decimal(width) + seq![32u8] + decimal(height) + seq![
        10u8,
        50u8,
        53u8,
        53u8,
        10u8,
    ]
}

/// The line of one pixel.
pub open spec fn pixel_line(p: Rgb) -> Seq<u8> {
    decimal(p.r as nat) + seq![32u8] + decimal(p.g as nat) + seq![32u8] + decimal(p.b as nat)
        + seq![10u8]
}

/// The lines of `pixels`, in order.
pub open spec fn body(pixels: Seq<Rgb>) -> Seq<u8>
    decreases pixels.len(),
{
    if pixels.len() == 0 {
        Seq::empty()
    } else {
        body(pixels.drop_last()) + pixel_line(pixels.last())
    }
}

/// The whole text of an image.
pub open spec fn encoding(picture: Picture) -> Seq<u8> {
    header(picture.width, picture.height) + body(picture.pixels)
}

/// Appends the decimal digits of `n`.
pub fn push_decimal(out: &mut Vec<u8>, n: u32)
    ensures
        final(out)@ == old(out)@ + decimal(n as nat),
    decreases n,
{
    if n < 10 {
        out.push(48 + n as u8);
        assert(final(out)@ =~= old(out)@ + decimal(n as nat));
    } else {
        push_decimal(out, n / 10);
        out.push(48 + (n % 10) as u8);
        assert(out@ =~= old(out)@ + decimal(n as nat));
    }
}

/// The header of an image of the given size.
pub fn ppm_header(width: u32, height: u32) -> (out: Vec<u8>)
    ensures
        out@ == header(width as nat, height as nat),
{
    let mut out: Vec<u8> = Vec::new();
    out.push(80);
    out.push(51);
    out.push(10);
    push_decimal(&mut out, width);
    out.push(32);
    push_decimal(&mut out, height);
    out.push(10);
    out.push(50);
    out.push(53);
    out.push(53);
    out.push(10);
    assert(out@ =~= header(width as nat, height as nat));
    out
}

/// Appends the line of one pixel.
pub fn push_pixel(out: &mut Vec<u8>, p: Rgb)
    ensures
        final(out)@ == old(out)@ + pixel_line(p),
{
    push_decimal(out, p.r as u32);
    out.push(32);
    push_decimal(out, p.g as u32);
    out.push(32);
    push_decimal(out, p.b as u32);
    out.push(10);
    assert(out@ =~= old(out)@ + pixel_line(p));
}

/// The text of an image.
pub fn encode(image: &Image) -> (out: Vec<u8>)
    ensures
        out@ == encoding(image@),
{
    let mut out = ppm_header(image.width, image.height);
    let mut i: usize = 0;
    while i < image.pixels.len()
        invariant
            i <= image.pixels@.len(),
            out@ == header(image.width as nat, image.height as nat) + body(
                image.pixels@.take(i as int),
            ),
        decreases image.pixels@.len() - i,
    {
        let ghost before = out@;
        push_pixel(&mut out, image.pixels[i]);
        proof {
            let next = image.pixels@.take(i + 1);
            assert(next.drop_last() =~= image.pixels@.take(i as int));
            assert(next.last() == image.pixels@[i as int]);
            assert(out@ =~= header(image.width as nat, image.height as nat) + body(next));
        }
        i += 1;
    }
    assert(image.pixels@.take(i as int) =~= image.pixels@);
    out
}

pub open spec fn is_digit(b: u8) -> bool {
    48 <= b <= 57
}

/// Where the run of digits that starts at `pos` ends.
pub open spec fn digits_end(s: Seq<u8>, pos: int) -> int
    decreases s.len() - pos,
{
    if 0 <= pos < s.len() && is_digit(s[pos]) {
        digits_end(s, pos + 1)
    } else {
        pos
    }
}

/// The number that a run of digits writes.
pub open spec fn digits_value(digits: Seq<u8>) -> nat
    decreases digits.len(),
{
    if digits.len() == 0 {
        0
    } else {
        digits_value(digits.drop_last()) * 10 + (digits.last() - 48) as nat
    }
}

/// The number written at `pos`, and where it ends: the whole run of digits
/// there, which must not be empty, must not start with a needless zero, and
/// must not write more than `limit`.
pub open spec fn number_at(s: Seq<u8>, pos: int, limit: nat) -> Option<(nat, int)> {
    let end = digits_end(s, pos);
    if pos < 0 || end <= pos {
        None
    } else if end - pos > 1 && s[pos] == 48 {
        None
    } else if digits_value(s.subrange(pos, end)) > limit {
        None
    } else {
        Some((digits_value(s.subrange(pos, end)), end))
    }
}

/// Whether the byte at `pos` is `b`.
pub open spec fn byte_at(s: Seq<u8>, pos: int, b: u8) -> bool {
    0 <= pos < s.len() && s[pos] == b
}

/// The size that the header at the start of `s` gives, and where the
/// header ends.
pub open spec fn header_at(s: Seq<u8>) -> Option<(nat, nat, int)> {
    if !(byte_at(s, 0, 80) && byte_at(s, 1, 51) && byte_at(s, 2, 10)) {
        None
    } else {
        match number_at(s, 3, u32::MAX as nat) {
            None => None,
            Some((width, width_end)) => if !byte_at(s, width_end, 32) {
                None
            } else {
                match number_at(s, width_end + 1, u32::MAX as nat) {
                    None => None,
                    Some((height, height_end)) => if byte_at(s, height_end, 10) && byte_at(s, height_end + 1, 50)
                        && byte_at(s, height_end + 2, 53) && byte_at(s, height_end + 3, 53) && byte_at(
                        s,
                        height_end + 4,
                        10,
                    ) {
                        Some((width, height, height_end + 5))
                    } else {
                        None
                    },
                }
            },
        }
    }
}

/// The pixel whose line starts at `pos`, and where the line ends.
pub open spec fn pixel_at(s: Seq<u8>, pos: int) -> Option<(Rgb, int)> {
    match number_at(s, pos, 255) {
        None => None,
        Some((r, red_end)) => if !byte_at(s, red_end, 32) {
            None
        } else {
            match number_at(s, red_end + 1, 255) {
                None => None,
                Some((g, green_end)) => if !byte_at(s, green_end, 32) {
                    None
                } else {
                    match number_at(s, green_end + 1, 255) {
                        None => None,
                        Some((b, blue_end)) => if !byte_at(s, blue_end, 10) {
                            None
                        } else {
                            Some((Rgb { r: r as u8, g: g as u8, b: b as u8 }, blue_end + 1))
                        },
                    }
                },
            }
        },
    }
}

/// The `count` pixels whose lines start at `pos`, and where the last ends.
pub open spec fn pixels_at(s: Seq<u8>, pos: int, count: nat) -> Option<(Seq<Rgb>, int)>
    decreases count,
{
    if count == 0 {
        Some((Seq::empty(), pos))
    } else {
        match pixels_at(s, pos, (count - 1) as nat) {
            None => None,
            Some((front, mid)) => match pixel_at(s, mid) {
                None => None,
                Some((p, end)) => Some((front.push(p), end)),
            },
        }
    }
}

/// The picture that `s` is the text of: a header, a line for each pixel of
/// the size that the header gives, and nothing after.
pub open spec fn parse_spec(s: Seq<u8>) -> Option<Picture> {
    match header_at(s) {
        None => None,
        Some((width, height, start)) => match pixels_at(s, start, width * height) {
            None => None,
            Some((pixels, end)) => if end == s.len() {
                Some(Picture { width, height, pixels })
            } else {
                None
            },
        },
    }
}

proof fn lemma_digits_end_bounds(s: Seq<u8>, pos: int)
    requires
        0 <= pos <= s.len(),
    ensures
        pos <= digits_end(s, pos) <= s.len(),
        forall|k: int| pos <= k < digits_end(s, pos) ==> is_digit(#[trigger] s[k]),
        digits_end(s, pos) < s.len() ==> !is_digit(s[digits_end(s, pos)]),
    decreases s.len() - pos,
{
    if pos < s.len() && is_digit(s[pos]) {
        lemma_digits_end_bounds(s, pos + 1);
    }
}

proof fn lemma_digits_end_run(s: Seq<u8>, pos: int, mid: int)
    requires
        0 <= pos <= mid <= s.len(),
        forall|k: int| pos <= k < mid ==> is_digit(#[trigger] s[k]),
    ensures
        digits_end(s, pos) == digits_end(s, mid),
    decreases mid - pos,
{
    if pos < mid {
        lemma_digits_end_run(s, pos + 1, mid);
    }
}

proof fn lemma_value_step(s: Seq<u8>, pos: int, mid: int)
    requires
        0 <= pos <= mid < s.len(),
    ensures
        digits_value(s.subrange(pos, mid + 1)) == digits_value(s.subrange(pos, mid)) * 10 + (s[mid]
            - 48) as nat,
{
    assert(s.subrange(pos, mid + 1).drop_last() =~= s.subrange(pos, mid));
}

proof fn lemma_value_grows(s: Seq<u8>, pos: int, mid: int, end: int)
    requires
        0 <= pos <= mid <= end <= s.len(),
        forall|k: int| pos <= k < end ==> is_digit(#[trigger] s[k]),
    ensures
        digits_value(s.subrange(pos, mid)) <= digits_value(s.subrange(pos, end)),
    decreases end - mid,
{
    if mid < end {
        lemma_value_grows(s, pos, mid, end - 1);
        lemma_value_step(s, pos, end - 1);
    }
}

fn digit_at(s: &[u8], pos: usize) -> (r: bool)
    ensures
        r == (pos < s@.len() && is_digit(s@[pos as int])),
{
    pos < s.len() && 48 <= s[pos] && s[pos] <= 57
}

/// Reads the number written at `pos`.
pub fn read_number(s: &[u8], pos: usize, limit: u32) -> (r: Option<(u32, usize)>)
    ensures
        match r {
            Some((n, end)) => number_at(s@, pos as int, limit as nat) == Some(
                (n as nat, end as int),
            ) && pos < end <= s@.len(),
            None => number_at(s@, pos as int, limit as nat) is None,
        },
{
    if !digit_at(s, pos) {
        return None;
    }
    proof {
        lemma_digits_end_bounds(s@, pos as int);
        lemma_digits_end_bounds(s@, pos as int + 1);
    }
    if s[pos] == 48 && digit_at(s, pos + 1) {
        return None;
    }
    let mut value: u64 = 0;
    let mut i: usize = pos;
    while digit_at(s, i)
        invariant
            pos <= i <= s@.len(),
            forall|k: int| pos <= k < i ==> is_digit(#[trigger] s@[k]),
            value == digits_value(s@.subrange(pos as int, i as int)),
            value <= limit,
        decreases s@.len() - i,
    {
        proof {
            lemma_value_step(s@, pos as int, i as int);
        }
        value = value * 10 + (s[i] - 48) as u64;
        i += 1;
        if value > limit as u64 {
            proof {
                lemma_digits_end_run(s@, pos as int, i as int);
                lemma_digits_end_bounds(s@, i as int);
                lemma_value_grows(s@, pos as int, i as int, digits_end(s@, pos as int));
            }
            return None;
        }
    }
    proof {
        lemma_digits_end_run(s@, pos as int, i as int);
    }
    Some((value as u32, i))
}

fn byte_is(s: &[u8], pos: usize, b: u8) -> (r: bool)
    ensures
        r == byte_at(s@, pos as int, b),
        r ==> pos < usize::MAX,
{
    pos < s.len() && s[pos] == b
}

/// Reads the header at the start of `s`.
pub fn read_header(s: &[u8]) -> (r: Option<(u32, u32, usize)>)
    ensures
        match r {
            Some((width, height, end)) => header_at(s@) == Some(
                (width as nat, height as nat, end as int),
            ) && end <= s@.len(),
            None => header_at(s@) is None,
        },
{
    if !(byte_is(s, 0, 80) && byte_is(s, 1, 51) && byte_is(s, 2, 10)) {
        return None;
    }
    let (width, width_end) = match read_number(s, 3, u32::MAX) {
        Some(found) => found,
        None => {
            return None;
        },
    };
    if !byte_is(s, width_end, 32) {
        return None;
    }
    let (height, height_end) = match read_number(s, width_end + 1, u32::MAX) {
        Some(found) => found,
        None => {
            return None;
        },
    };
    if s.len() - height_end < 5 {
        return None;
    }
    if byte_is(s, height_end, 10) && byte_is(s, height_end + 1, 50) && byte_is(s, height_end + 2, 53) && byte_is(
        s,
        height_end + 3,
        53,
    ) && byte_is(s, height_end + 4, 10) {
        Some((width, height, height_end + 5))
    } else {
        None
    }
}

/// Reads the line of one pixel at `pos`.
pub fn read_pixel(s: &[u8], pos: usize) -> (r: Option<(Rgb, usize)>)
    ensures
        match r {
            Some((p, end)) => pixel_at(s@, pos as int) == Some((p, end as int)) && pos < end
                <= s@.len(),
            None => pixel_at(s@, pos as int) is None,
        },
{
    let (r, red_end) = match read_number(s, pos, 255) {
        Some(found) => found,
        None => {
            return None;
        },
    };
    if !byte_is(s, red_end, 32) {
        return None;
    }
    let (g, green_end) = match read_number(s, red_end + 1, 255) {
        Some(found) => found,
        None => {
            return None;
        },
    };
    if !byte_is(s, green_end, 32) {
        return None;
    }
    let (b, blue_end) = match read_number(s, green_end + 1, 255) {
        Some(found) => found,
        None => {
            return None;
        },
    };
    if !byte_is(s, blue_end, 10) {
        return None;
    }
    Some((Rgb { r: r as u8, g: g as u8, b: b as u8 }, blue_end + 1))
}

/// Reads the text of an image. Succeeds exactly on the texts that `encode`
/// writes of well-formed pictures, and gives the picture written.
pub fn parse(s: &[u8]) -> (r: Option<Image>)
    ensures
        match r {
            Some(image) => parse_spec(s@) == Some(image@) && image@.wf() && encoding(image@) == s@,
            None => parse_spec(s@) is None && forall|p: Picture|
                p.wf() ==> #[trigger] encoding(p) != s@,
        },
{
    let r = parse_checked(s);
    proof {
        if r is Some {
            lemma_parse_sound(s@);
        } else {
            assert forall|p: Picture| p.wf() implies #[trigger] encoding(p) != s@ by {
                if encoding(p) == s@ {
                    lemma_round_trip(p);
                }
            }
        }
    }
    r
}

fn parse_checked(s: &[u8]) -> (r: Option<Image>)
    ensures
        match r {
            Some(image) => parse_spec(s@) == Some(image@),
            None => parse_spec(s@) is None,
        },
{
    let (width, height, start) = match read_header(s) {
        Some(found) => found,
        None => {
            return None;
        },
    };
    assert(width * height <= 0xffff_ffff * 0xffff_ffff) by (nonlinear_arith)
        requires
            width <= 0xffff_ffff,
            height <= 0xffff_ffff,
    ;
    let count: u64 = width as u64 * height as u64;
    let mut pixels: Vec<Rgb> = Vec::new();
    let mut pos: usize = start;
    let mut i: u64 = 0;
    while i < count
        invariant
            i <= count,
            count == width * height,
            header_at(s@) == Some((width as nat, height as nat, start as int)),
            pos <= s@.len(),
            pixels@.len() == i,
            pixels_at(s@, start as int, i as nat) == Some((pixels@, pos as int)),
        decreases count - i,
    {
        let (p, end) = match read_pixel(s, pos) {
            Some(found) => found,
            None => {
                proof {
                    assert(pixels_at(s@, start as int, (i + 1) as nat) is None);
                    lemma_pixels_fail(s@, start as int, (i + 1) as nat, count as nat);
                }
                return None;
            },
        };
        pixels.push(p);
        pos = end;
        i += 1;
    }
    if pos != s.len() {
        return None;
    }
    Some(Image { width, height, pixels })
}

proof fn lemma_pixels_fail(s: Seq<u8>, pos: int, short: nat, count: nat)
    requires
        short <= count,
        pixels_at(s, pos, short) is None,
    ensures
        pixels_at(s, pos, count) is None,
    decreases count,
{
    if short < count {
        lemma_pixels_fail(s, pos, short, (count - 1) as nat);
    }
}

/// Whether `s` reads `part` from `pos` on.
pub open spec fn holds_at(s: Seq<u8>, pos: int, part: Seq<u8>) -> bool {
    &&& 0 <= pos
    &&& pos + part.len() <= s.len()
    &&& forall|k: int| 0 <= k < part.len() ==> s[pos + k] == #[trigger] part[k]
}

proof fn lemma_holds_split(s: Seq<u8>, pos: int, a: Seq<u8>, b: Seq<u8>)
    requires
        holds_at(s, pos, a + b),
    ensures
        holds_at(s, pos, a),
        holds_at(s, pos + a.len(), b),
{
    assert forall|k: int| 0 <= k < a.len() implies s[pos + k] == #[trigger] a[k] by {
        assert((a + b)[k] == a[k]);
    }
    assert forall|k: int| 0 <= k < b.len() implies s[pos + a.len() + k] == #[trigger] b[k] by {
        assert((a + b)[a.len() + k] == b[k]);
    }
}

/// The digits of a number are digits, start with no needless zero, and
/// write that number.
pub proof fn lemma_decimal_shape(n: nat)
    ensures
        decimal(n).len() >= 1,
        forall|k: int| 0 <= k < decimal(n).len() ==> is_digit(#[trigger] decimal(n)[k]),
        n >= 1 ==> decimal(n)[0] != 48,
        n < 10 <==> decimal(n).len() == 1,
        digits_value(decimal(n)) == n,
    decreases n,
{
    if n < 10 {
        assert(decimal(n).drop_last() =~= Seq::<u8>::empty());
        assert(digits_value(decimal(n).drop_last()) == 0);
    } else {
        lemma_decimal_shape(n / 10);
        assert(decimal(n).drop_last() =~= decimal(n / 10));
    }
}

proof fn lemma_number_round_trip(s: Seq<u8>, pos: int, n: nat, limit: nat)
    requires
        holds_at(s, pos, decimal(n)),
        n <= limit,
        pos + decimal(n).len() == s.len() || !is_digit(s[pos + decimal(n).len()]),
    ensures
        number_at(s, pos, limit) == Some((n, pos + decimal(n).len())),
{
    let end: int = pos + decimal(n).len();
    lemma_decimal_shape(n);
    assert forall|k: int| pos <= k < end implies is_digit(#[trigger] s[k]) by {
        assert(s[pos + (k - pos)] == decimal(n)[k - pos]);
    }
    lemma_digits_end_run(s, pos, end);
    assert(digits_end(s, end) == end);
    assert(s.subrange(pos, end) =~= decimal(n)) by {
        assert forall|k: int| 0 <= k < end - pos implies s.subrange(pos, end)[k] == decimal(n)[k] by {
            assert(s[pos + k] == decimal(n)[k]);
        }
    }
    assert(s[pos + 0] == decimal(n)[0]);
}

proof fn lemma_pixel_round_trip(s: Seq<u8>, pos: int, p: Rgb)
    requires
        holds_at(s, pos, pixel_line(p)),
    ensures
        pixel_at(s, pos) == Some((p, pos + pixel_line(p).len())),
{
    let r = decimal(p.r as nat);
    let g = decimal(p.g as nat);
    let b = decimal(p.b as nat);
    let space = seq![32u8];
    let newline = seq![10u8];
    lemma_holds_split(s, pos, r + space + g + space + b, newline);
    lemma_holds_split(s, pos, r + space + g + space, b);
    lemma_holds_split(s, pos, r + space + g, space);
    lemma_holds_split(s, pos, r + space, g);
    lemma_holds_split(s, pos, r, space);
    let red_end: int = pos + r.len();
    let green_end: int = red_end + 1 + g.len();
    let blue_end: int = green_end + 1 + b.len();
    assert(s[red_end + 0] == space[0]);
    assert(s[green_end + 0] == space[0]);
    assert(s[blue_end + 0] == newline[0]);
    lemma_number_round_trip(s, pos, p.r as nat, 255);
    lemma_number_round_trip(s, red_end + 1, p.g as nat, 255);
    lemma_number_round_trip(s, green_end + 1, p.b as nat, 255);
}

proof fn lemma_pixels_round_trip(s: Seq<u8>, pos: int, pixels: Seq<Rgb>)
    requires
        holds_at(s, pos, body(pixels)),
    ensures
        pixels_at(s, pos, pixels.len()) == Some((pixels, pos + body(pixels).len())),
    decreases pixels.len(),
{
    if pixels.len() > 0 {
        let front = pixels.drop_last();
        lemma_holds_split(s, pos, body(front), pixel_line(pixels.last()));
        lemma_pixels_round_trip(s, pos, front);
        lemma_pixel_round_trip(s, pos + body(front).len(), pixels.last());
        assert(front.push(pixels.last()) =~= pixels);
    }
}

proof fn lemma_header_round_trip(s: Seq<u8>, width: nat, height: nat)
    requires
        holds_at(s, 0, header(width, height)),
        width <= u32::MAX,
        height <= u32::MAX,
    ensures
        header_at(s) == Some((width, height, header(width, height).len() as int)),
{
    let magic = seq![80u8, 51u8, 10u8];
    let w = decimal(width);
    let h = decimal(height);
    let space = seq![32u8];
    let tail = seq![10u8, 50u8, 53u8, 53u8, 10u8];
    lemma_holds_split(s, 0, magic + w + space + h, tail);
    lemma_holds_split(s, 0, magic + w + space, h);
    lemma_holds_split(s, 0, magic + w, space);
    lemma_holds_split(s, 0, magic, w);
    let width_end: int = 3int + w.len();
    let height_end: int = width_end + 1 + h.len();
    assert(s[0] == magic[0] && s[1] == magic[1] && s[2] == magic[2]);
    assert(s[width_end + 0] == space[0]);
    assert(s[height_end + 0] == tail[0] && s[height_end + 1] == tail[1] && s[height_end + 2] == tail[2] && s[height_end + 3]
        == tail[3] && s[height_end + 4] == tail[4]);
    lemma_number_round_trip(s, 3, width, u32::MAX as nat);
    lemma_number_round_trip(s, width_end + 1, height, u32::MAX as nat);
}

/// Reading what was written gives the picture back: the text of a picture
/// parses, and to the same width, height and pixels.
pub proof fn lemma_round_trip(picture: Picture)
    requires
        picture.wf(),
    ensures
        parse_spec(encoding(picture)) == Some(picture),
{
    let s = encoding(picture);
    let head = header(picture.width, picture.height);
    assert(holds_at(s, 0, head + body(picture.pixels)));
    lemma_holds_split(s, 0, head, body(picture.pixels));
    lemma_header_round_trip(s, picture.width, picture.height);
    lemma_pixels_round_trip(s, head.len() as int, picture.pixels);
}

proof fn lemma_digits_canonical(digits: Seq<u8>)
    requires
        digits.len() >= 1,
        forall|k: int| 0 <= k < digits.len() ==> is_digit(#[trigger] digits[k]),
        digits.len() > 1 ==> digits[0] != 48,
    ensures
        decimal(digits_value(digits)) == digits,
        digits[0] != 48 ==> digits_value(digits) >= 1,
    decreases digits.len(),
{
    let front = digits.drop_last();
    if digits.len() == 1 {
        assert(front =~= Seq::<u8>::empty());
        assert(digits_value(front) == 0);
        assert(decimal(digits_value(digits)) =~= digits);
    } else {
        lemma_digits_canonical(front);
        let n = digits_value(digits);
        assert(n / 10 == digits_value(front) && n % 10 == digits.last() - 48) by (nonlinear_arith)
            requires
                n == digits_value(front) * 10 + (digits.last() - 48),
                0 <= digits.last() - 48 < 10,
        ;
        assert(decimal(n) =~= digits);
    }
}

proof fn lemma_number_sound(s: Seq<u8>, pos: int, limit: nat)
    requires
        pos <= s.len(),
        number_at(s, pos, limit) is Some,
    ensures
        ({
            let (n, end) = number_at(s, pos, limit)->Some_0;
            &&& 0 <= pos < end <= s.len()
            &&& n <= limit
            &&& s.subrange(pos, end) == decimal(n)
        }),
{
    let end = digits_end(s, pos);
    lemma_digits_end_bounds(s, pos);
    lemma_digits_canonical(s.subrange(pos, end));
}

proof fn lemma_pixel_sound(s: Seq<u8>, pos: int)
    requires
        pos <= s.len(),
        pixel_at(s, pos) is Some,
    ensures
        ({
            let (p, end) = pixel_at(s, pos)->Some_0;
            &&& 0 <= pos < end <= s.len()
            &&& s.subrange(pos, end) == pixel_line(p)
        }),
{
    lemma_number_sound(s, pos, 255);
    let (r, red_end) = number_at(s, pos, 255)->Some_0;
    lemma_number_sound(s, red_end + 1, 255);
    let (g, green_end) = number_at(s, red_end + 1, 255)->Some_0;
    lemma_number_sound(s, green_end + 1, 255);
    let (b, blue_end) = number_at(s, green_end + 1, 255)->Some_0;
    let (p, end) = pixel_at(s, pos)->Some_0;
    assert(s.subrange(pos, end) =~= s.subrange(pos, red_end) + seq![32u8] + s.subrange(red_end + 1, green_end)
        + seq![32u8] + s.subrange(green_end + 1, blue_end) + seq![10u8]);
}

proof fn lemma_pixels_sound(s: Seq<u8>, pos: int, count: nat)
    requires
        0 <= pos <= s.len(),
        pixels_at(s, pos, count) is Some,
    ensures
        ({
            let (pixels, end) = pixels_at(s, pos, count)->Some_0;
            &&& pos <= end <= s.len()
            &&& pixels.len() == count
            &&& s.subrange(pos, end) == body(pixels)
        }),
    decreases count,
{
    if count > 0 {
        lemma_pixels_sound(s, pos, (count - 1) as nat);
        let (front, mid) = pixels_at(s, pos, (count - 1) as nat)->Some_0;
        lemma_pixel_sound(s, mid);
        let (p, end) = pixel_at(s, mid)->Some_0;
        let pixels = front.push(p);
        assert(pixels.drop_last() =~= front);
        assert(s.subrange(pos, end) =~= s.subrange(pos, mid) + s.subrange(mid, end));
    } else {
        assert(s.subrange(pos, pos) =~= Seq::<u8>::empty());
    }
}

proof fn lemma_header_sound(s: Seq<u8>)
    requires
        header_at(s) is Some,
    ensures
        ({
            let (width, height, end) = header_at(s)->Some_0;
            &&& 0 <= end <= s.len()
            &&& width <= u32::MAX
            &&& height <= u32::MAX
            &&& s.subrange(0, end) == header(width, height)
        }),
{
    lemma_number_sound(s, 3, u32::MAX as nat);
    let (width, width_end) = number_at(s, 3, u32::MAX as nat)->Some_0;
    lemma_number_sound(s, width_end + 1, u32::MAX as nat);
    let (height, height_end) = number_at(s, width_end + 1, u32::MAX as nat)->Some_0;
    assert(s.subrange(0, height_end + 5) =~= seq![80u8, 51u8, 10u8] + s.subrange(3, width_end) + seq![32u8]
        + s.subrange(width_end + 1, height_end) + seq![10u8, 50u8, 53u8, 53u8, 10u8]);
}

/// What parses was written: a text that gives a picture is the text of
/// that picture, and the picture is well formed.
pub proof fn lemma_parse_sound(s: Seq<u8>)
    requires
        parse_spec(s) is Some,
    ensures
        parse_spec(s)->Some_0.wf(),
        encoding(parse_spec(s)->Some_0) == s,
{
    lemma_header_sound(s);
    let (width, height, start) = header_at(s)->Some_0;
    lemma_pixels_sound(s, start, width * height);
    assert(s =~= s.subrange(0, start) + s.subrange(start, s.len() as int));
}

} // verus!
