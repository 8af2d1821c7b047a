//! The frame buffer: a `SCREEN_W` x `SCREEN_H` RGBA image, four bytes per
//! pixel, row-major.
use vstd::prelude::*;

verus! {

/// Width of the screen in pixels.
pub const SCREEN_W: usize = 640;

/// Height of the screen in pixels.
pub const SCREEN_H: usize = 480;

/// Bytes in a frame.
pub const FRAME_LEN: usize = 1_228_800;

/// The frame after every on-screen pixel `(x, y)` for which `paint` gives a
/// colour has been set to that colour; every other byte is unchanged.
pub open spec fn painted(old: Seq<u8>, paint: spec_fn(int, int) -> Option<Seq<u8>>) -> Seq<u8> {
    Seq::new(
        old.len(),
        |k: int|
            {
                let p = k / 4;
                let x = p % (SCREEN_W as int);
                let y = p / (SCREEN_W as int);
                if y < SCREEN_H {
                    match paint(x, y) {
                        Some(c) => c[k % 4],
                        None => old[k],
                    }
                } else {
                    old[k]
                }
            },
    )
}

/// Painting pixel `(x, y)` touches exactly the four bytes at
/// `(y * SCREEN_W + x) * 4`, which hold its channels in order.
pub proof fn lemma_pixel_bytes(k: int, x: int, y: int)
    requires
        0 <= x < SCREEN_W,
        0 <= y,
        0 <= k,
    ensures
        ((k / 4) % (SCREEN_W as int) == x && (k / 4) / (SCREEN_W as int) == y) <==> ((y * SCREEN_W + x)
            * 4 <= k < (y * SCREEN_W + x) * 4 + 4),
        (y * SCREEN_W + x) * 4 <= k < (y * SCREEN_W + x) * 4 + 4 ==> k % 4 == k - (y * SCREEN_W + x)
            * 4,
{
}

/// Painting sets each byte of an on-screen pixel that the painting colours
/// to that colour's channel, the four channels of pixel `(x, y)` lying at
/// `(y * SCREEN_W + x) * 4`, and leaves every other byte as it was.
pub proof fn lemma_painted_pixel(
    old: Seq<u8>,
    paint: spec_fn(int, int) -> Option<Seq<u8>>,
    x: int,
    y: int,
    c: int,
)
    requires
        0 <= x < SCREEN_W,
        0 <= y,
        0 <= c < 4,
        (y * SCREEN_W + x) * 4 + c < old.len(),
    ensures
        painted(old, paint)[(y * SCREEN_W + x) * 4 + c] == if y < SCREEN_H && paint(x, y) is Some {
            paint(x, y)->0[c]
        } else {
            old[(y * SCREEN_W + x) * 4 + c]
        },
{
    lemma_pixel_bytes((y * SCREEN_W + x) * 4 + c, x, y);
}

/// Painting twice is painting once, the second painting winning where both
/// give a colour.
pub proof fn lemma_paint_twice(
    old: Seq<u8>,
    f: spec_fn(int, int) -> Option<Seq<u8>>,
    g: spec_fn(int, int) -> Option<Seq<u8>>,
)
    ensures
        painted(painted(old, f), g) == painted(
            old,
            |x: int, y: int|
                if g(x, y) is Some {
                    g(x, y)
                } else {
                    f(x, y)
                },
        ),
{
    assert(painted(painted(old, f), g) =~= painted(
        old,
        |x: int, y: int|
            if g(x, y) is Some {
                g(x, y)
            } else {
                f(x, y)
            },
    ));
}

/// Paintings that agree on every on-screen pixel give the same frame.
pub proof fn lemma_paint_agree(
    old: Seq<u8>,
    f: spec_fn(int, int) -> Option<Seq<u8>>,
    g: spec_fn(int, int) -> Option<Seq<u8>>,
)
    requires
        forall|x: int, y: int| 0 <= x < SCREEN_W && 0 <= y < SCREEN_H ==> #[trigger] f(x, y) == g(x, y),
    ensures
        painted(old, f) == painted(old, g),
{
    assert forall|k: int| 0 <= k < old.len() implies #[trigger] painted(old, f)[k] == painted(old, g)[k] by {
        let p = k / 4;
        let x = p % (SCREEN_W as int);
        let y = p / (SCREEN_W as int);
        if y < SCREEN_H {
            assert(f(x, y) == g(x, y));
        }
    }
    assert(painted(old, f) =~= painted(old, g));
}

/// Painting nothing leaves the frame as it is.
pub proof fn lemma_paint_nothing(old: Seq<u8>)
    ensures
        painted(old, |x: int, y: int| None::<Seq<u8>>) == old,
{
    assert(painted(old, |x: int, y: int| None::<Seq<u8>>) =~= old);
}

/// A frame of `len` bytes holds the four bytes of every on-screen pixel that
/// `paint` gives a colour.
pub open spec fn fits(len: int, paint: spec_fn(int, int) -> Option<Seq<u8>>) -> bool {
    forall|x: int, y: int|
        0 <= x < SCREEN_W && 0 <= y < SCREEN_H && (#[trigger] paint(x, y)) is Some ==> (y * SCREEN_W + x)
            * 4 + 4 <= len
}

/// A full frame holds every pixel of every painting.
pub proof fn lemma_full_frame_fits(len: int, paint: spec_fn(int, int) -> Option<Seq<u8>>)
    requires
        len >= FRAME_LEN,
    ensures
        fits(len, paint),
{
    assert forall|x: int, y: int|
        0 <= x < SCREEN_W && 0 <= y < SCREEN_H && (#[trigger] paint(x, y)) is Some implies (y * SCREEN_W
        + x) * 4 + 4 <= len by {
        assert(y * SCREEN_W <= (SCREEN_H - 1) * SCREEN_W) by (nonlinear_arith)
            requires
                0 <= y < SCREEN_H,
        ;
    }
}

/// A frame that holds the pixels of one painting holds those of any painting
/// that colours no other on-screen pixel.
pub proof fn lemma_fits_within(
    len: int,
    f: spec_fn(int, int) -> Option<Seq<u8>>,
    g: spec_fn(int, int) -> Option<Seq<u8>>,
)
    requires
        fits(len, g),
        forall|x: int, y: int|
            0 <= x < SCREEN_W && 0 <= y < SCREEN_H && (#[trigger] f(x, y)) is Some ==> g(x, y) is Some,
    ensures
        fits(len, f),
{
    assert forall|x: int, y: int|
        0 <= x < SCREEN_W && 0 <= y < SCREEN_H && (#[trigger] f(x, y)) is Some implies (y * SCREEN_W + x)
        * 4 + 4 <= len by {
        assert(g(x, y) is Some);
    }
}

/// Sets pixel `(x, y)` to `color`; a pixel off the screen is skipped, and
/// only the four bytes of an on-screen pixel need to exist.
pub fn put(frame: &mut [u8], x: usize, y: usize, color: [u8; 4])
    requires
        x < SCREEN_W && y < SCREEN_H ==> (y * SCREEN_W + x) * 4 + 4 <= old(frame)@.len(),
    ensures
        final(frame)@ == painted(
            old(frame)@,
            |px: int, py: int|
                if px == x && py == y {
                    Some(color@)
                } else {
                    None
                },
        ),
{
    let ghost paint = |px: int, py: int|
        if px == x && py == y {
            Some(color@)
        } else {
            None
        };
    if x < SCREEN_W && y < SCREEN_H {
        let i = (y * SCREEN_W + x) * 4;
        frame[i] = color[0];
        frame[i + 1] = color[1];
        frame[i + 2] = color[2];
        frame[i + 3] = color[3];
        assert forall|k: int| 0 <= k < old(frame)@.len() implies #[trigger] frame@[k] == painted(
            old(frame)@,
            paint,
        )[k] by {
            lemma_pixel_bytes(k, x as int, y as int);
        }
        assert(frame@ =~= painted(old(frame)@, paint));
    } else {
        assert forall|k: int| 0 <= k < old(frame)@.len() implies #[trigger] frame@[k] == painted(
            old(frame)@,
            paint,
        )[k] by {
            let p = k / 4;
            assert(p % (SCREEN_W as int) < SCREEN_W);
        }
        assert(frame@ =~= painted(old(frame)@, paint));
    }
}

/// The `0x00RRGGBB` word of an RGBA pixel (alpha dropped).
pub open spec fn xrgb(r: u8, g: u8, b: u8) -> u32 {
    (r as int * 0x1_0000 + g as int * 0x100 + b as int) as u32
}

/// An `0x00RRGGBB` word holds red in bits 16..24, green in bits 8..16 and
/// blue in bits 0..8.
pub proof fn lemma_xrgb_channels(r: u8, g: u8, b: u8)
    ensures
        xrgb(r, g, b) / 0x1_0000 == r,
        xrgb(r, g, b) / 0x100 % 0x100 == g,
        xrgb(r, g, b) % 0x100 == b,
{
    let w: int = r as int * 0x1_0000 + g as int * 0x100 + b as int;
    assert(w < 0x100_0000);
    assert(xrgb(r, g, b) == w);
}

/// Converts the RGBA frame to `0x00RRGGBB` words for presentation: word `i`
/// comes from pixel `i`, for as many whole pixels as both buffers hold; the
/// other words are unchanged.
pub fn blit_xrgb(rgba: &[u8], out: &mut [u32])
    ensures
        final(out)@.len() == old(out)@.len(),
        forall|i: int|
            0 <= i < old(out)@.len() ==> #[trigger] final(out)@[i] == if i < rgba@.len() / 4 {
                xrgb(rgba@[4 * i], rgba@[4 * i + 1], rgba@[4 * i + 2])
            } else {
                old(out)@[i]
            },
{
    let n = if out.len() < rgba.len() / 4 {
        out.len()
    } else {
        rgba.len() / 4
    };
    for i in 0..n
        invariant
            n <= out@.len(),
            n <= rgba@.len() / 4,
            out@.len() == old(out)@.len(),
            forall|j: int|
                0 <= j < old(out)@.len() ==> #[trigger] out@[j] == if j < i {
                    xrgb(rgba@[4 * j], rgba@[4 * j + 1], rgba@[4 * j + 2])
                } else {
                    old(out)@[j]
                },
    {
        assert(rgba@.len() == rgba.len());
        assert(4 * i + 3 < rgba@.len());
        let r = rgba[4 * i];
        let g = rgba[4 * i + 1];
        let b = rgba[4 * i + 2];
        let word = ((r as u32) << 16) | ((g as u32) << 8) | (b as u32);
        assert(word == r as int * 0x1_0000 + g as int * 0x100 + b as int) by (bit_vector)
            requires
                word == ((r as u32) << 16) | ((g as u32) << 8) | (b as u32),
        ;
        out[i] = word;
    }
}

} // verus!
