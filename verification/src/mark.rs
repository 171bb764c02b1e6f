//! The program's mark: how the samples of a pixel become its colour, and the icon file that Windows
//! reads.

use vstd::prelude::*;

verus! {

/// The edge of the square of samples that makes up a pixel.
pub const SS: usize = 4;

/// The sizes in the icon file.
pub fn ico_sizes() -> (r: Vec<usize>)
    ensures
        r@ == seq![16usize, 32, 48, 64, 128, 256],
{
    let mut v: Vec<usize> = Vec::new();
    v.push(16);
    v.push(32);
    v.push(48);
    v.push(64);
    v.push(128);
    v.push(256);
    assert(v@ =~= seq![16usize, 32, 48, 64, 128, 256]);
    v
}

/// A colour.
#[derive(Clone, Copy, Debug, PartialEq, Eq, Structural)]
pub struct Rgb {
    pub r: u8,
    pub g: u8,
    pub b: u8,
}

/// A colour and how much of the pixel it covers.
#[derive(Clone, Copy, Debug, PartialEq, Eq, Structural)]
pub struct Rgba {
    pub r: u8,
    pub g: u8,
    pub b: u8,
    pub a: u8,
}

/// How many of the samples are covered.
pub open spec fn covered(s: Seq<Option<Rgb>>) -> nat
    decreases s.len(),
{
    if s.len() == 0 {
        0
    } else {
        covered(s.drop_last()) + (if s.last() is Some {
            1nat
        } else {
            0
        })
    }
}

/// The three colours of the covered samples, each added up.
pub open spec fn summed(s: Seq<Option<Rgb>>) -> (nat, nat, nat)
    decreases s.len(),
{
    if s.len() == 0 {
        (0, 0, 0)
    } else {
        let (r, g, b) = summed(s.drop_last());
        match s.last() {
            Some(c) => (r + c.r as nat, g + c.g as nat, b + c.b as nat),
            None => (r, g, b),
        }
    }
}

/// A quotient, to the nearest whole number; a half goes up.
pub open spec fn rounded(n: nat, d: nat) -> nat {
    (2 * n + d) / (2 * d)
}

/// The colour of a pixel: the mean of its covered samples, as opaque as the share of them.
pub open spec fn blended(s: Seq<Option<Rgb>>) -> Rgba {
    let n = covered(s);
    if n == 0 {
        Rgba { r: 0, g: 0, b: 0, a: 0 }
    } else {
        let (r, g, b) = summed(s);
        Rgba {
            r: rounded(r, n) as u8,
            g: rounded(g, n) as u8,
            b: rounded(b, n) as u8,
            a: rounded(n * 255, (SS * SS) as nat) as u8,
        }
    }
}

proof fn lemma_rounded_fits(n: nat, d: nat)
    requires
        d > 0,
        n <= 255 * d,
    ensures
        rounded(n, d) <= 255,
{
    assert((2 * n + d) / (2 * d) < 256) by (nonlinear_arith)
        requires
            d > 0,
            n <= 255 * d,
    ;
}

fn divide_rounded(n: u32, d: u32) -> (r: u8)
    requires
        0 < d <= 16,
        n <= 255 * d,
    ensures
        r == rounded(n as nat, d as nat),
{
    proof {
        lemma_rounded_fits(n as nat, d as nat);
    }
    ((2 * n + d) / (2 * d)) as u8
}

/// The colour of the pixel whose samples stand from `from` on.
fn blend_at(samples: &Vec<Option<Rgb>>, from: usize) -> (r: Rgba)
    requires
        from + SS * SS <= samples@.len(),
    ensures
        r == blended(samples@.subrange(from as int, from + SS * SS)),
{
    let ghost own = samples@.subrange(from as int, from + 16);
    let mut n: u32 = 0;
    let mut red: u32 = 0;
    let mut green: u32 = 0;
    let mut blue: u32 = 0;
    let mut i: usize = 0;
    assert(from + 16 <= samples.len());
    while i < 16
        invariant
            from + 16 <= samples@.len() <= usize::MAX,
            own == samples@.subrange(from as int, from + 16),
            i <= 16,
            n == covered(own.take(i as int)),
            n <= i,
            (red as nat, green as nat, blue as nat) == summed(own.take(i as int)),
            red <= 255 * n,
            green <= 255 * n,
            blue <= 255 * n,
        decreases 16 - i,
    {
        assert(own.take(i + 1).drop_last() =~= own.take(i as int));
        assert(own.take(i + 1).last() == samples@[from + i]);
        if let Some(c) = samples[from + i] {
            n += 1;
            red += c.r as u32;
            green += c.g as u32;
            blue += c.b as u32;
        }
        i += 1;
    }
    assert(own.take(i as int) =~= own);
    if n == 0 {
        return Rgba { r: 0, g: 0, b: 0, a: 0 };
    }
    Rgba {
        r: divide_rounded(red, n),
        g: divide_rounded(green, n),
        b: divide_rounded(blue, n),
        a: divide_rounded(n * 255, 16),
    }
}

/// The colour of a pixel, from the samples that it is made of: the colour of each, where anything is
/// drawn there.
pub fn blend(samples: &Vec<Option<Rgb>>) -> (r: Rgba)
    requires
        samples@.len() == SS * SS,
    ensures
        r == blended(samples@),
{
    assert(samples@.subrange(0, 16) =~= samples@);
    blend_at(samples, 0)
}

/// The four bytes of a pixel.
pub open spec fn four(c: Rgba) -> Seq<u8> {
    seq![c.r, c.g, c.b, c.a]
}

/// The colour of the pixel with number `p`, where the samples of the pixels stand one behind the
/// other.
pub open spec fn pixel_at(samples: Seq<Option<Rgb>>, p: int) -> Rgba {
    blended(samples.subrange(p * (SS * SS), p * (SS * SS) + SS * SS))
}

/// The first `n` pixels: red, green, blue and alpha of each.
pub open spec fn pixels_of(samples: Seq<Option<Rgb>>, n: nat) -> Seq<u8> {
    Seq::new(n * 4, |i: int| four(pixel_at(samples, i / 4))[i % 4])
}

proof fn lemma_sixteenth(n: int, all: int)
    requires
        all == n * (SS * SS),
    ensures
        all / 16 == n,
{
    let square: int = SS * SS;
    assert(n * square == n * 16) by (nonlinear_arith)
        requires
            square == 16,
    ;
}

/// The pixels of a square picture, from the samples of all of them: row by row, the top one first.
pub fn pixels(size: usize, samples: &Vec<Option<Rgb>>) -> (r: Vec<u8>)
    requires
        samples@.len() == size * size * (SS * SS),
    ensures
        r@.len() == size * size * 4,
        r@ == pixels_of(samples@, (size * size) as nat),
{
    let n: usize = samples.len() / 16;
    proof {
        lemma_sixteenth(size * size, samples@.len() as int);
    }
    let mut out: Vec<u8> = Vec::new();
    let mut p: usize = 0;
    while p < n
        invariant
            n * 16 == samples@.len() <= usize::MAX,
            p <= n,
            out@ == pixels_of(samples@, p as nat),
        decreases n - p,
    {
        let c: Rgba = blend_at(samples, p * 16);
        let ghost before = out@;
        out.push(c.r);
        out.push(c.g);
        out.push(c.b);
        out.push(c.a);
        proof {
            let want = pixels_of(samples@, (p + 1) as nat);
            assert(c == pixel_at(samples@, p as int));
            assert forall|i: int| 0 <= i < want.len() implies out@[i] == want[i] by {
                if i < before.len() {
                    assert(out@[i] == before[i]);
                } else {
                    assert(i / 4 == p);
                }
            }
            assert(out@ =~= want);
        }
        p += 1;
    }
    out
}

/// The two lowest bytes of a number, lowest first.
pub open spec fn le16(n: nat) -> Seq<u8> {
    seq![(n % 256) as u8, (n / 256 % 256) as u8]
}

/// The four lowest bytes of a number, lowest first.
pub open spec fn le32(n: nat) -> Seq<u8> {
    le16(n) + le16(n / 65536)
}

fn push_le16(out: &mut Vec<u8>, n: u64)
    ensures
        final(out)@ == old(out)@ + le16(n as nat),
{
    out.push((n % 256) as u8);
    out.push((n / 256 % 256) as u8);
    assert(out@ =~= old(out)@ + le16(n as nat));
}

fn push_le32(out: &mut Vec<u8>, n: u64)
    ensures
        final(out)@ == old(out)@ + le32(n as nat),
{
    push_le16(out, n);
    push_le16(out, n / 65536);
    assert(out@ =~= old(out)@ + le32(n as nat));
}

/// The bytes of one row of the mask: a bit for every pixel, and whole groups of four bytes.
pub open spec fn mask_stride(size: nat) -> nat {
    (size + 31) / 32 * 4
}

/// How many bytes the two bitmaps of an image take.
pub open spec fn bitmap_len(size: nat) -> nat {
    size * size * 4 + mask_stride(size) * size
}

/// What stands in front of the two bitmaps. The height counts both.
pub open spec fn dib_header(size: nat) -> Seq<u8> {
    le32(40) + le32(size) + le32(size * 2) + le16(1) + le16(32) + le32(0) + le32(bitmap_len(size))
        + le32(0) + le32(0) + le32(0) + le32(0)
}

/// A row of the colour bitmap: blue, green, red and alpha of every pixel.
pub open spec fn colour_row(pixels: Seq<u8>, size: nat, row: int, n: nat) -> Seq<u8>
    decreases n,
{
    if n == 0 {
        Seq::empty()
    } else {
        let i = (row * size + (n - 1)) * 4;
        colour_row(pixels, size, row, (n - 1) as nat) + seq![
            pixels[i + 2],
            pixels[i + 1],
            pixels[i],
            pixels[i + 3],
        ]
    }
}

/// The lowest `n` rows of the colour bitmap, the lowest first.
pub open spec fn colour_rows(pixels: Seq<u8>, size: nat, n: nat) -> Seq<u8>
    decreases n,
{
    if n == 0 {
        Seq::empty()
    } else {
        colour_rows(pixels, size, (n - 1) as nat) + colour_row(pixels, size, size - n, size)
    }
}

/// Whether a pixel is transparent. There is none beyond the edge.
pub open spec fn clear(pixels: Seq<u8>, size: nat, row: int, col: int) -> bool {
    col < size && pixels[(row * size + col) * 4 + 3] == 0
}

/// The bits of the mask for `n` pixels from the column `first` on: set where a pixel is transparent,
/// the first of them highest.
pub open spec fn mask_byte(pixels: Seq<u8>, size: nat, row: int, first: int, n: nat) -> nat
    decreases n,
{
    if n == 0 {
        0
    } else {
        mask_byte(pixels, size, row, first, (n - 1) as nat) * 2 + (if clear(
            pixels,
            size,
            row,
            first + n - 1,
        ) {
            1nat
        } else {
            0
        })
    }
}

/// A row of the mask.
pub open spec fn mask_row(pixels: Seq<u8>, size: nat, row: int) -> Seq<u8> {
    Seq::new(mask_stride(size), |b: int| mask_byte(pixels, size, row, b * 8, 8) as u8)
}

/// The lowest `n` rows of the mask, the lowest first.
pub open spec fn mask_rows(pixels: Seq<u8>, size: nat, n: nat) -> Seq<u8>
    decreases n,
{
    if n == 0 {
        Seq::empty()
    } else {
        mask_rows(pixels, size, (n - 1) as nat) + mask_row(pixels, size, size - n)
    }
}

/// One image of the icon file: the header, the colours and the mask, both from the lowest row up.
pub open spec fn dib_of(pixels: Seq<u8>, size: nat) -> Seq<u8> {
    dib_header(size) + colour_rows(pixels, size, size) + mask_rows(pixels, size, size)
}

proof fn lemma_colour_row_len(pixels: Seq<u8>, size: nat, row: int, n: nat)
    ensures
        colour_row(pixels, size, row, n).len() == n * 4,
    decreases n,
{
    if n > 0 {
        lemma_colour_row_len(pixels, size, row, (n - 1) as nat);
    }
}

proof fn lemma_colour_rows_len(pixels: Seq<u8>, size: nat, n: nat)
    ensures
        colour_rows(pixels, size, n).len() == n * size * 4,
    decreases n,
{
    if n > 0 {
        lemma_colour_rows_len(pixels, size, (n - 1) as nat);
        lemma_colour_row_len(pixels, size, size - n, size);
        assert((n - 1) * size * 4 + size * 4 == n * size * 4) by (nonlinear_arith);
    } else {
        assert(n * size * 4 == 0) by (nonlinear_arith)
            requires
                n == 0,
        ;
    }
}

proof fn lemma_mask_rows_len(pixels: Seq<u8>, size: nat, n: nat)
    ensures
        mask_rows(pixels, size, n).len() == mask_stride(size) * n,
    decreases n,
{
    if n > 0 {
        lemma_mask_rows_len(pixels, size, (n - 1) as nat);
        assert(mask_stride(size) * (n - 1) + mask_stride(size) == mask_stride(size) * n)
            by (nonlinear_arith);
    } else {
        assert(mask_stride(size) * n == 0) by (nonlinear_arith)
            requires
                n == 0,
        ;
    }
}

/// An image takes as many bytes as its header says, and those of the header.
pub proof fn law_image_length(pixels: Seq<u8>, size: nat)
    ensures
        dib_header(size).len() == 40,
        dib_of(pixels, size).len() == 40 + bitmap_len(size),
{
    lemma_colour_rows_len(pixels, size, size);
    lemma_mask_rows_len(pixels, size, size);
}

proof fn lemma_pixel_index(size: nat, row: nat, col: nat)
    requires
        row < size,
        col < size,
    ensures
        0 <= row * size,
        0 <= row * size + col,
        (row * size + col) * 4 + 3 < size * size * 4,
{
    assert(row * size + col < size * size && 0 <= row * size) by (nonlinear_arith)
        requires
            row < size,
            col < size,
    ;
}

fn push_header(out: &mut Vec<u8>, size: usize, bitmap: usize)
    requires
        bitmap == bitmap_len(size as nat),
        size * 2 <= u64::MAX,
    ensures
        final(out)@ == old(out)@ + dib_header(size as nat),
{
    push_le32(out, 40);
    push_le32(out, size as u64);
    push_le32(out, size as u64 * 2);
    push_le16(out, 1);
    push_le16(out, 32);
    push_le32(out, 0);
    push_le32(out, bitmap as u64);
    push_le32(out, 0);
    push_le32(out, 0);
    push_le32(out, 0);
    push_le32(out, 0);
    assert(out@ =~= old(out)@ + dib_header(size as nat));
}

fn push_colour_row(out: &mut Vec<u8>, pixels: &Vec<u8>, size: usize, row: usize)
    requires
        pixels@.len() == size * size * 4,
        row < size,
    ensures
        final(out)@ == old(out)@ + colour_row(pixels@, size as nat, row as int, size as nat),
{
    let ghost start = out@;
    let mut col: usize = 0;
    while col < size
        invariant
            pixels@.len() == size * size * 4,
            row < size,
            col <= size,
            out@ == start + colour_row(pixels@, size as nat, row as int, col as nat),
        decreases size - col,
    {
        assert(pixels@.len() <= usize::MAX) by {
            assert(pixels.len() <= usize::MAX);
        }
        proof {
            lemma_pixel_index(size as nat, row as nat, col as nat);
        }
        let i: usize = (row * size + col) * 4;
        out.push(pixels[i + 2]);
        out.push(pixels[i + 1]);
        out.push(pixels[i]);
        out.push(pixels[i + 3]);
        col += 1;
        assert(out@ =~= start + colour_row(pixels@, size as nat, row as int, col as nat));
    }
}

fn push_mask_row(out: &mut Vec<u8>, pixels: &Vec<u8>, size: usize, row: usize, stride: usize)
    requires
        pixels@.len() == size * size * 4,
        row < size,
        stride == mask_stride(size as nat),
    ensures
        final(out)@ == old(out)@ + mask_row(pixels@, size as nat, row as int),
{
    let ghost start = out@;
    let ghost want = mask_row(pixels@, size as nat, row as int);
    let mut b: usize = 0;
    let mut col: usize = 0;
    while b < stride
        invariant
            pixels@.len() == size * size * 4,
            row < size,
            stride == mask_stride(size as nat),
            want == mask_row(pixels@, size as nat, row as int),
            b <= stride,
            col == (if b * 8 < size {
                b * 8
            } else {
                size as int
            }),
            out@ == start + want.take(b as int),
        decreases stride - b,
    {
        let mut bits: u16 = 0;
        let mut n: u8 = 0;
        while n < 8
            invariant
                pixels@.len() == size * size * 4,
                row < size,
                n <= 8,
                col == (if b * 8 + n < size {
                    b * 8 + n
                } else {
                    size as int
                }),
                bits == mask_byte(pixels@, size as nat, row as int, b * 8, n as nat),
                n == 0 ==> bits == 0,
                n == 1 ==> bits < 2,
                n == 2 ==> bits < 4,
                n == 3 ==> bits < 8,
                n == 4 ==> bits < 16,
                n == 5 ==> bits < 32,
                n == 6 ==> bits < 64,
                n == 7 ==> bits < 128,
                n == 8 ==> bits < 256,
            decreases 8 - n,
        {
            bits = bits * 2;
            if col < size {
                assert(pixels@.len() <= usize::MAX) by {
                    assert(pixels.len() <= usize::MAX);
                }
                proof {
                    lemma_pixel_index(size as nat, row as nat, col as nat);
                }
                if pixels[(row * size + col) * 4 + 3] == 0 {
                    bits = bits + 1;
                }
                col += 1;
            }
            n += 1;
        }
        out.push(bits as u8);
        b += 1;
        assert(want.take(b as int) =~= want.take(b - 1).push(bits as u8));
    }
    assert(want.take(b as int) =~= want);
}

/// One image of the icon file, from its pixels: red, green, blue and alpha of each, the top row
/// first.
pub fn dib(pixels: &Vec<u8>, size: usize) -> (r: Vec<u8>)
    requires
        pixels@.len() == size * size * 4,
        40 + bitmap_len(size as nat) <= usize::MAX,
    ensures
        r@ == dib_of(pixels@, size as nat),
{
    proof {
        assert(size <= size * size * 4) by (nonlinear_arith);
        assert(size * 2 <= size * size * 4) by (nonlinear_arith);
        assert(mask_stride(size as nat) * size >= 0) by (nonlinear_arith)
            requires
                mask_stride(size as nat) >= 0,
        ;
        assert(size > 0 ==> mask_stride(size as nat) <= mask_stride(size as nat) * size)
            by (nonlinear_arith);
    }
    let groups: usize = if size % 32 == 0 {
        size / 32
    } else {
        size / 32 + 1
    };
    assert(groups == (size as int + 31) / 32);
    let stride: usize = if size == 0 {
        0
    } else {
        groups * 4
    };
    let bitmap: usize = size * size * 4 + stride * size;
    let mut out: Vec<u8> = Vec::new();
    push_header(&mut out, size, bitmap);
    let ghost start = out@;
    assert(start =~= dib_header(size as nat));
    let mut n: usize = 0;
    while n < size
        invariant
            pixels@.len() == size * size * 4,
            n <= size,
            out@ == start + colour_rows(pixels@, size as nat, n as nat),
        decreases size - n,
    {
        push_colour_row(&mut out, pixels, size, size - 1 - n);
        n += 1;
        assert(out@ =~= start + colour_rows(pixels@, size as nat, n as nat));
    }
    let ghost coloured = out@;
    n = 0;
    while n < size
        invariant
            pixels@.len() == size * size * 4,
            stride == mask_stride(size as nat),
            n <= size,
            out@ == coloured + mask_rows(pixels@, size as nat, n as nat),
        decreases size - n,
    {
        push_mask_row(&mut out, pixels, size, size - 1 - n, stride);
        n += 1;
        assert(out@ =~= coloured + mask_rows(pixels@, size as nat, n as nat));
    }
    out
}

/// The images of an icon file.
pub open spec fn images_of(pixels: Seq<Vec<u8>>, sizes: Seq<usize>) -> Seq<Seq<u8>> {
    Seq::new(sizes.len(), |i: int| dib_of(pixels[i]@, sizes[i] as nat))
}

/// How many bytes the first `n` images take.
pub open spec fn length_of(images: Seq<Seq<u8>>, n: nat) -> nat
    decreases n,
{
    if n == 0 {
        0
    } else {
        length_of(images, (n - 1) as nat) + images[n - 1].len()
    }
}

/// Where an image stands in the file: behind the header, all entries and the images before it.
pub open spec fn offset_of(images: Seq<Seq<u8>>, i: nat) -> nat {
    6 + 16 * images.len() + length_of(images, i)
}

/// An entry of an icon file. A size that does not fit is written as zero.
pub open spec fn entry_of(size: nat, length: nat, offset: nat) -> Seq<u8> {
    let dim = if size >= 256 {
        0u8
    } else {
        size as u8
    };
    seq![dim, dim, 0u8, 0u8] + le16(1) + le16(32) + le32(length) + le32(offset)
}

/// The first `n` entries of an icon file.
pub open spec fn entries_of(sizes: Seq<usize>, images: Seq<Seq<u8>>, n: nat) -> Seq<u8>
    decreases n,
{
    if n == 0 {
        Seq::empty()
    } else {
        entries_of(sizes, images, (n - 1) as nat) + entry_of(
            sizes[n - 1] as nat,
            images[n - 1].len(),
            offset_of(images, (n - 1) as nat),
        )
    }
}

/// The first `n` images one behind the other.
pub open spec fn chained(images: Seq<Seq<u8>>, n: nat) -> Seq<u8>
    decreases n,
{
    if n == 0 {
        Seq::empty()
    } else {
        chained(images, (n - 1) as nat) + images[n - 1]
    }
}

/// An icon file: a header, an entry for every image, and the images.
pub open spec fn ico_of(sizes: Seq<usize>, images: Seq<Seq<u8>>) -> Seq<u8> {
    le16(0) + le16(1) + le16(sizes.len()) + entries_of(sizes, images, sizes.len()) + chained(
        images,
        sizes.len(),
    )
}

/// `len` bytes from a place on.
pub open spec fn span(s: Seq<u8>, from: nat, len: nat) -> Seq<u8> {
    s.subrange(from as int, (from + len) as int)
}

proof fn lemma_entries_len(sizes: Seq<usize>, images: Seq<Seq<u8>>, n: nat)
    ensures
        entries_of(sizes, images, n).len() == 16 * n,
    decreases n,
{
    if n > 0 {
        lemma_entries_len(sizes, images, (n - 1) as nat);
    }
}

proof fn lemma_chained(images: Seq<Seq<u8>>, i: nat, n: nat)
    requires
        n <= images.len(),
    ensures
        chained(images, n).len() == length_of(images, n),
        i < n ==> length_of(images, i) + images[i as int].len() <= length_of(images, n),
        i < n ==> span(chained(images, n), length_of(images, i), images[i as int].len()) == images[i as int],
    decreases n,
{
    if n > 0 {
        lemma_chained(images, i, (n - 1) as nat);
        if i + 1 < n {
            assert(span(chained(images, n), length_of(images, i), images[i as int].len()) =~= span(chained(images, (n - 1) as nat), length_of(images, i), images[i as int].len()));
        } else if i < n {
            assert(span(chained(images, n), length_of(images, i), images[i as int].len()) =~= images[i as int]);
        }
    }
}

proof fn lemma_entry_at(sizes: Seq<usize>, images: Seq<Seq<u8>>, i: nat, n: nat)
    requires
        i < n,
    ensures
        entries_of(sizes, images, n).len() == 16 * n,
        span(entries_of(sizes, images, n), 16 * i, 16) == entry_of(
            sizes[i as int] as nat,
            images[i as int].len(),
            offset_of(images, i),
        ),
    decreases n,
{
    lemma_entries_len(sizes, images, n);
    lemma_entries_len(sizes, images, (n - 1) as nat);
    if i + 1 < n {
        lemma_entry_at(sizes, images, i, (n - 1) as nat);
        assert(span(entries_of(sizes, images, n), 16 * i, 16) =~= span(entries_of(
            sizes,
            images,
            (n - 1) as nat,
        ), 16 * i, 16));
    } else {
        assert(span(entries_of(sizes, images, n), 16 * i, 16) =~= entry_of(
            sizes[i as int] as nat,
            images[i as int].len(),
            offset_of(images, i),
        ));
    }
}

/// Every entry of an icon file gives the length of its image and the place where it stands, and the
/// image stands there.
pub proof fn law_entries_lead_to_images(sizes: Seq<usize>, images: Seq<Seq<u8>>, i: nat)
    requires
        sizes.len() == images.len(),
        i < images.len(),
    ensures
        ico_of(sizes, images).len() == offset_of(images, images.len()),
        span(ico_of(sizes, images), 6 + 16 * i, 16) == entry_of(
            sizes[i as int] as nat,
            images[i as int].len(),
            offset_of(images, i),
        ),
        span(ico_of(sizes, images), offset_of(images, i), images[i as int].len()) == images[i as int],
{
    let n = images.len();
    let all = ico_of(sizes, images);
    let entries = entries_of(sizes, images, n);
    lemma_entry_at(sizes, images, i, n);
    lemma_chained(images, i, n);
    assert(span(all, 6 + 16 * i, 16) =~= span(entries, 16 * i, 16));
    assert(span(all, offset_of(images, i), images[i as int].len()) =~= span(chained(images, n), length_of(images, i), images[i as int].len()));
}

fn push_entry(out: &mut Vec<u8>, size: usize, length: usize, offset: usize)
    ensures
        final(out)@ == old(out)@ + entry_of(size as nat, length as nat, offset as nat),
{
    let dim: u8 = if size >= 256 {
        0
    } else {
        size as u8
    };
    out.push(dim);
    out.push(dim);
    out.push(0);
    out.push(0);
    push_le16(out, 1);
    push_le16(out, 32);
    push_le32(out, length as u64);
    push_le32(out, offset as u64);
    assert(out@ =~= old(out)@ + entry_of(size as nat, length as nat, offset as nat));
}

proof fn lemma_length_grows(images: Seq<Seq<u8>>, i: nat, n: nat)
    requires
        i <= n,
    ensures
        length_of(images, i) <= length_of(images, n),
    decreases n,
{
    if i < n {
        lemma_length_grows(images, i, (n - 1) as nat);
    }
}

/// An icon file with an image of every size, each from its pixels.
pub fn ico(sizes: &Vec<usize>, pixels: &Vec<Vec<u8>>) -> (r: Vec<u8>)
    requires
        pixels@.len() == sizes@.len(),
        forall|i: int|
            #![trigger pixels@[i]]
            0 <= i < sizes@.len() ==> pixels@[i]@.len() == sizes@[i] * sizes@[i] * 4,
        offset_of(images_of(pixels@, sizes@), sizes@.len()) <= usize::MAX,
    ensures
        r@ == ico_of(sizes@, images_of(pixels@, sizes@)),
{
    let ghost want = images_of(pixels@, sizes@);
    let count: usize = sizes.len();
    let mut images: Vec<Vec<u8>> = Vec::new();
    let mut i: usize = 0;
    while i < count
        invariant
            count == sizes@.len(),
            pixels@.len() == sizes@.len(),
            forall|k: int|
                #![trigger pixels@[k]]
                0 <= k < sizes@.len() ==> pixels@[k]@.len() == sizes@[k] * sizes@[k] * 4,
            want == images_of(pixels@, sizes@),
            offset_of(want, sizes@.len()) <= usize::MAX,
            i <= count,
            images@.len() == i,
            forall|k: int| 0 <= k < i ==> (#[trigger] images@[k])@ == want[k],
        decreases count - i,
    {
        proof {
            law_image_length(pixels@[i as int]@, sizes@[i as int] as nat);
            lemma_length_grows(want, (i + 1) as nat, sizes@.len());
            assert(want[i as int] == dib_of(pixels@[i as int]@, sizes@[i as int] as nat));
        }
        images.push(dib(&pixels[i], sizes[i]));
        i += 1;
    }
    let mut out: Vec<u8> = Vec::new();
    push_le16(&mut out, 0);
    push_le16(&mut out, 1);
    push_le16(&mut out, count as u64);
    let ghost head = out@;
    assert(head =~= le16(0) + le16(1) + le16(sizes@.len()));
    let mut offset: usize = 6 + 16 * count;
    i = 0;
    while i < count
        invariant
            count == sizes@.len(),
            want.len() == count,
            offset_of(want, sizes@.len()) <= usize::MAX,
            images@.len() == count,
            forall|k: int| 0 <= k < count ==> (#[trigger] images@[k])@ == want[k],
            i <= count,
            offset == offset_of(want, i as nat),
            out@ == head + entries_of(sizes@, want, i as nat),
        decreases count - i,
    {
        proof {
            lemma_length_grows(want, (i + 1) as nat, sizes@.len());
            assert(images@[i as int]@ == want[i as int]);
        }
        let length: usize = images[i].len();
        let ghost before = entries_of(sizes@, want, i as nat);
        let ghost entry = entry_of(sizes@[i as int] as nat, length as nat, offset as nat);
        push_entry(&mut out, sizes[i], length, offset);
        offset += length;
        i += 1;
        assert(entries_of(sizes@, want, i as nat) == before + entry);
        assert((head + before) + entry =~= head + (before + entry));
    }
    let ghost listed = out@;
    i = 0;
    while i < count
        invariant
            count == sizes@.len(),
            want.len() == count,
            images@.len() == count,
            forall|k: int| 0 <= k < count ==> (#[trigger] images@[k])@ == want[k],
            i <= count,
            out@ == listed + chained(want, i as nat),
        decreases count - i,
    {
        let ghost before = out@;
        assert(images@[i as int]@ == want[i as int]);
        out.extend_from_slice(images[i].as_slice());
        i += 1;
        assert(out@ =~= before + want[i - 1]);
        assert(out@ =~= listed + chained(want, i as nat));
    }
    assert(out@ =~= ico_of(sizes@, want));
    out
}

/// A pixel's cover counts the samples that are covered, and its sums run over their colours.
pub proof fn law_samples_are_counted(a: Seq<Option<Rgb>>, b: Seq<Option<Rgb>>, c: Rgb)
    ensures
        covered(a) == a.filter(|x: Option<Rgb>| x is Some).len(),
        summed(a + b) == (
            summed(a).0 + summed(b).0,
            summed(a).1 + summed(b).1,
            summed(a).2 + summed(b).2,
        ),
        summed(seq![Some(c)]) == (c.r as nat, c.g as nat, c.b as nat),
        summed(seq![None::<Rgb>]) == (0nat, 0nat, 0nat),
    decreases a.len() + b.len(),
{
    reveal(Seq::filter);
    reveal_with_fuel(summed, 2);
    assert(seq![Some(c)].drop_last() =~= Seq::<Option<Rgb>>::empty());
    assert(seq![None::<Rgb>].drop_last() =~= Seq::<Option<Rgb>>::empty());
    if b.len() > 0 {
        law_samples_are_counted(a, b.drop_last(), c);
        assert((a + b).drop_last() =~= a + b.drop_last());
        assert((a + b).last() == b.last());
    } else {
        assert(a + b =~= a);
        if a.len() > 0 {
            law_samples_are_counted(a.drop_last(), b, c);
        }
    }
}

/// Rounding goes to the nearest whole number, and up from the middle.
pub proof fn law_rounding_is_to_the_nearest(n: nat, d: nat)
    requires
        d > 0,
    ensures
        2 * d * rounded(n, d) <= 2 * n + d,
        2 * n + d < 2 * d * rounded(n, d) + 2 * d,
{
    let x = (2 * n + d) as int;
    let y = (2 * d) as int;
    assert(y * (x / y) <= x && x < y * (x / y) + y) by (nonlinear_arith)
        requires
            y > 0,
    ;
}

/// A pixel without a covered sample is clear; one whose sixteen samples all have one colour has that
/// colour and is opaque.
pub proof fn law_plain_pixels(s: Seq<Option<Rgb>>, c: Rgb)
    ensures
        (forall|i: int| 0 <= i < s.len() ==> (#[trigger] s[i]) is None) ==> blended(s) == (Rgba {
            r: 0,
            g: 0,
            b: 0,
            a: 0,
        }),
        s.len() == 16 && (forall|i: int| 0 <= i < s.len() ==> #[trigger] s[i] == Some(c))
            ==> blended(s) == (Rgba { r: c.r, g: c.g, b: c.b, a: 255 }),
{
    if forall|i: int| 0 <= i < s.len() ==> (#[trigger] s[i]) is None {
        lemma_none_covered(s);
    }
    if s.len() == 16 && (forall|i: int| 0 <= i < s.len() ==> #[trigger] s[i] == Some(c)) {
        lemma_all_of_one(s, c);
        lemma_sixteen_alike(c.r as nat);
        lemma_sixteen_alike(c.g as nat);
        lemma_sixteen_alike(c.b as nat);
        lemma_sixteen_alike(255);
        assert(SS * SS == 16) by (nonlinear_arith)
            requires
                SS == 4,
        ;
    }
}

proof fn lemma_sixteen_alike(x: nat)
    ensures
        rounded(16 * x, 16) == x,
{
    assert((2 * (16 * x) + 16) / (2 * 16) == x) by (nonlinear_arith);
}

proof fn lemma_none_covered(s: Seq<Option<Rgb>>)
    requires
        forall|i: int| 0 <= i < s.len() ==> (#[trigger] s[i]) is None,
    ensures
        covered(s) == 0,
    decreases s.len(),
{
    if s.len() > 0 {
        assert(s[s.len() - 1] is None);
        assert forall|i: int| 0 <= i < s.drop_last().len() implies (
        #[trigger] s.drop_last()[i]) is None by {
            assert(s.drop_last()[i] == s[i]);
        }
        lemma_none_covered(s.drop_last());
    }
}

proof fn lemma_all_of_one(s: Seq<Option<Rgb>>, c: Rgb)
    requires
        forall|i: int| 0 <= i < s.len() ==> #[trigger] s[i] == Some(c),
    ensures
        covered(s) == s.len(),
        summed(s).0 == s.len() * c.r,
        summed(s).1 == s.len() * c.g,
        summed(s).2 == s.len() * c.b,
    decreases s.len(),
{
    if s.len() > 0 {
        let front = s.drop_last();
        assert(s[s.len() - 1] == Some(c));
        assert forall|i: int| 0 <= i < front.len() implies #[trigger] front[i] == Some(c) by {
            assert(front[i] == s[i]);
        }
        lemma_all_of_one(front, c);
        let n = front.len() as int;
        let (r, g, b) = (c.r as int, c.g as int, c.b as int);
        assert(n * r + r == (n + 1) * r && n * g + g == (n + 1) * g && n * b + b == (n + 1) * b)
            by (nonlinear_arith);
    } else {
        let (r, g, b) = (c.r as int, c.g as int, c.b as int);
        assert(0 * r == 0 && 0 * g == 0 && 0 * b == 0) by (nonlinear_arith);
    }
}

/// The pixels follow one another, four bytes for each: red, green, blue and cover; each is made of the
/// sixteen samples that are its own.
pub proof fn law_pixels_follow_their_samples(samples: Seq<Option<Rgb>>, n: nat, p: int)
    requires
        0 <= p < n,
    ensures
        pixels_of(samples, n).len() == 4 * n,
        ({
            let c = blended(samples.subrange(16 * p, 16 * p + 16));
            &&& pixels_of(samples, n)[4 * p] == c.r
            &&& pixels_of(samples, n)[4 * p + 1] == c.g
            &&& pixels_of(samples, n)[4 * p + 2] == c.b
            &&& pixels_of(samples, n)[4 * p + 3] == c.a
        }),
{
    let square: int = SS * SS;
    assert(square == 16) by (nonlinear_arith)
        requires
            square == SS * SS,
            SS == 4,
    ;
    assert(p * square == 16 * p) by (nonlinear_arith)
        requires
            square == 16,
    ;
    assert((4 * p) / 4 == p && (4 * p) % 4 == 0);
    assert((4 * p + 1) / 4 == p && (4 * p + 1) % 4 == 1);
    assert((4 * p + 2) / 4 == p && (4 * p + 2) % 4 == 2);
    assert((4 * p + 3) / 4 == p && (4 * p + 3) % 4 == 3);
}

/// Numbers in the icon file stand with the lowest byte first.
pub proof fn law_numbers_in_the_icon(n: nat)
    ensures
        n < 0x1_0000 ==> le16(n).len() == 2 && le16(n)[0] + 256 * le16(n)[1] == n,
        n < 0x1_0000_0000 ==> le32(n).len() == 4 && le32(n)[0] + 256 * le32(n)[1] + 65536 * le32(
            n,
        )[2] + 16777216 * le32(n)[3] == n,
{
    if n < 0x1_0000_0000 {
        assert(n / 65536 / 256 % 256 == n / 16777216);
    }
}

/// The header of a picture: its own length, the width, twice the width for its height, one plane,
/// thirty-two bits for a pixel, no compression, and how many bytes the rows and the mask take.
pub proof fn law_headers_of_pictures(size: nat)
    ensures
        dib_header(size).subrange(0, 4) == le32(40),
        dib_header(size).subrange(4, 8) == le32(size),
        dib_header(size).subrange(8, 12) == le32(2 * size),
        dib_header(size).subrange(12, 14) == le16(1),
        dib_header(size).subrange(14, 16) == le16(32),
        dib_header(size).subrange(16, 20) == le32(0),
        dib_header(size).subrange(20, 24) == le32(
            4 * (size * size) + (size + 31) / 32 * 4 * size,
        ),
        forall|i: int| 24 <= i < 40 ==> dib_header(size)[i] == 0,
{
    let h = dib_header(size);
    let n = size * size;
    assert(bitmap_len(size) == 4 * n + (size + 31) / 32 * 4 * size) by (nonlinear_arith)
        requires
            bitmap_len(size) == n * 4 + mask_stride(size) * size,
            mask_stride(size) == (size + 31) / 32 * 4,
    ;
    assert(h.subrange(0, 4) =~= le32(40));
    assert(h.subrange(4, 8) =~= le32(size));
    assert(h.subrange(8, 12) =~= le32(2 * size));
    assert(h.subrange(12, 14) =~= le16(1));
    assert(h.subrange(14, 16) =~= le16(32));
    assert(h.subrange(16, 20) =~= le32(0));
    assert(h.subrange(20, 24) =~= le32(bitmap_len(size)));
}

proof fn lemma_colour_at(pixels: Seq<u8>, size: nat, row: int, n: nat, col: int)
    requires
        0 <= col < n,
    ensures
        ({
            let i = (row * size + col) * 4;
            colour_row(pixels, size, row, n).subrange(4 * col, 4 * col + 4) == seq![
                pixels[i + 2],
                pixels[i + 1],
                pixels[i],
                pixels[i + 3],
            ]
        }),
    decreases n,
{
    lemma_colour_row_len(pixels, size, row, n);
    lemma_colour_row_len(pixels, size, row, (n - 1) as nat);
    let all = colour_row(pixels, size, row, n);
    let front = colour_row(pixels, size, row, (n - 1) as nat);
    if col < n - 1 {
        lemma_colour_at(pixels, size, row, (n - 1) as nat, col);
        assert(all.subrange(4 * col, 4 * col + 4) =~= front.subrange(4 * col, 4 * col + 4));
    } else {
        let i = (row * size + (n - 1)) * 4;
        assert(all.subrange(4 * col, 4 * col + 4) =~= seq![
            pixels[i + 2],
            pixels[i + 1],
            pixels[i],
            pixels[i + 3],
        ]);
    }
}

proof fn lemma_row_at(pixels: Seq<u8>, size: nat, n: nat, k: nat)
    requires
        k < n,
    ensures
        k * size * 4 + size * 4 <= colour_rows(pixels, size, n).len(),
        colour_rows(pixels, size, n).subrange(
            (k * size * 4) as int,
            (k * size * 4 + size * 4) as int,
        ) == colour_row(pixels, size, size - 1 - k, size),
    decreases n,
{
    let less = (n - 1) as nat;
    lemma_colour_rows_len(pixels, size, n);
    lemma_colour_rows_len(pixels, size, less);
    lemma_colour_row_len(pixels, size, size - n, size);
    let all = colour_rows(pixels, size, n);
    let front = colour_rows(pixels, size, less);
    let from = (k * size * 4) as int;
    if k < less {
        lemma_row_at(pixels, size, less, k);
        assert(all.subrange(from, from + size * 4) =~= front.subrange(from, from + size * 4));
    } else {
        assert(all.subrange(from, from + size * 4) =~= colour_row(
            pixels,
            size,
            size - n,
            size,
        ));
    }
}

/// A picture's rows stand from the lowest to the top one, and each pixel in them as blue, green, red and
/// cover: every pixel of the square is found at its place.
pub proof fn law_pixels_in_the_picture(pixels: Seq<u8>, size: nat, row: nat, col: nat)
    requires
        row < size,
        col < size,
    ensures
        ({
            let at = 40 + (size - 1 - row) * size * 4 + 4 * col;
            let from = (row * size + col) * 4int;
            &&& at + 4 <= dib_of(pixels, size).len()
            &&& dib_of(pixels, size)[at] == pixels[from + 2]
            &&& dib_of(pixels, size)[at + 1] == pixels[from + 1]
            &&& dib_of(pixels, size)[at + 2] == pixels[from]
            &&& dib_of(pixels, size)[at + 3] == pixels[from + 3]
        }),
{
    let k = (size - 1 - row) as nat;
    lemma_row_at(pixels, size, size, k);
    lemma_colour_at(pixels, size, row as int, size, col as int);
    lemma_colour_row_len(pixels, size, row as int, size);
    law_image_length(pixels, size);
    let rows = colour_rows(pixels, size, size);
    let line = colour_row(pixels, size, row as int, size);
    let start = (k * size * 4) as int;
    assert(k * size * 4 == (size - 1 - row) * size * 4);
    let four_bytes = line.subrange(4 * (col as int), 4 * (col as int) + 4);
    let at = start + 4 * col;
    assert(rows.subrange(start, start + size * 4) == line);
    assert forall|j: int| 0 <= j < 4 implies rows[at + j] == four_bytes[j] by {
        assert(line[4 * col + j] == rows.subrange(start, start + size * 4)[4 * col + j]);
    }
    assert(four_bytes[0] == pixels[(row * size + col) * 4int + 2]);
    assert(dib_header(size).len() == 40);
    assert(dib_of(pixels, size)[40 + at] == rows[at]);
    assert(dib_of(pixels, size)[40 + at + 1] == rows[at + 1]);
    assert(dib_of(pixels, size)[40 + at + 2] == rows[at + 2]);
    assert(dib_of(pixels, size)[40 + at + 3] == rows[at + 3]);
}

/// One bit of the mask stands for each pixel of a row, the leftmost in the highest bit, and is set where
/// the pixel is clear; the bits behind the last pixel are not set.
pub proof fn law_bits_of_the_mask(pixels: Seq<u8>, size: nat, row: int, b: int)
    requires
        0 <= b < (size + 31) / 32 * 4,
    ensures
        mask_row(pixels, size, row).len() == (size + 31) / 32 * 4,
        ({
            let bit = |k: int|
                if 8 * b + k < size && pixels[(row * size + (8 * b + k)) * 4 + 3] == 0 {
                    1int
                } else {
                    0
                };
            mask_row(pixels, size, row)[b] == 128 * bit(0) + 64 * bit(1) + 32 * bit(2) + 16 * bit(3)
                + 8 * bit(4) + 4 * bit(5) + 2 * bit(6) + bit(7)
        }),
{
    reveal_with_fuel(mask_byte, 9);
    let first = b * 8;
    assert(first == 8 * b);
    assert(clear(pixels, size, row, first) == clear(pixels, size, row, first + 0));
}

/// The rows of the mask stand from the lowest to the top one.
pub proof fn law_rows_of_the_mask(pixels: Seq<u8>, size: nat, n: nat, k: nat)
    requires
        k < n,
    ensures
        mask_stride(size) * k + mask_stride(size) <= mask_rows(pixels, size, n).len(),
        mask_rows(pixels, size, n).subrange(
            (mask_stride(size) * k) as int,
            (mask_stride(size) * k + mask_stride(size)) as int,
        ) == mask_row(pixels, size, size - 1 - k),
    decreases n,
{
    let less = (n - 1) as nat;
    lemma_mask_rows_len(pixels, size, n);
    lemma_mask_rows_len(pixels, size, less);
    let all = mask_rows(pixels, size, n);
    let front = mask_rows(pixels, size, less);
    let stride = mask_stride(size) as int;
    let from = (mask_stride(size) * k) as int;
    if k < less {
        law_rows_of_the_mask(pixels, size, less, k);
        assert(all.subrange(from, from + stride) =~= front.subrange(from, from + stride));
    } else {
        assert(all.subrange(from, from + stride) =~= mask_row(pixels, size, size - n));
    }
}

/// An entry of the icon file says how large its picture is, with a zero for the largest size, how its
/// pixels are made, how long it is and where it stands.
pub proof fn law_entries_of_the_icon(size: nat, length: nat, offset: nat)
    ensures
        entry_of(size, length, offset).len() == 16,
        0 < size < 256 ==> entry_of(size, length, offset)[0] == size && entry_of(
            size,
            length,
            offset,
        )[1] == size,
        size >= 256 ==> entry_of(size, length, offset)[0] == 0 && entry_of(
            size,
            length,
            offset,
        )[1] == 0,
        entry_of(size, length, offset).subrange(2, 8) == seq![0u8, 0, 1, 0, 32, 0],
        entry_of(size, length, offset).subrange(8, 12) == le32(length),
        entry_of(size, length, offset).subrange(12, 16) == le32(offset),
{
    let e = entry_of(size, length, offset);
    assert(e.subrange(2, 8) =~= seq![0u8, 0, 1, 0, 32, 0]);
    assert(e.subrange(8, 12) =~= le32(length));
    assert(e.subrange(12, 16) =~= le32(offset));
}

} // verus!
