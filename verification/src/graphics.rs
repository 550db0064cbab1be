//! Decoded textures and the colour summary used when a texture cannot be drawn.
use vstd::prelude::*;

verus! {

/// A decoded texture: `width` by `height` pixels, four RGBA bytes each.
#[derive(Clone)]
pub struct LoadedTexture {
    pub width: u32,
    pub height: u32,
    pub rgba: Vec<u8>,
}

impl LoadedTexture {
    /// An empty texture.
    pub fn new() -> (t: Self)
        ensures
            t.width == 0,
            t.height == 0,
            t.rgba@.len() == 0,
    {
        LoadedTexture { width: 0, height: 0, rgba: Vec::new() }
    }

    /// The number of RGBA bytes.
    pub fn len(&self) -> (n: usize)
        ensures
            n == self.rgba@.len(),
    {
        self.rgba.len()
    }

    /// A copy with the same size and bytes.
    pub fn duplicate(&self) -> (t: Self)
        ensures
            t.width == self.width,
            t.height == self.height,
            t.rgba@ == self.rgba@,
    {
        let rgba = self.rgba.clone();
        proof {
            assert(rgba@ =~= self.rgba@);
        }
        LoadedTexture { width: self.width, height: self.height, rgba }
    }
}

/// A projection onto the screen; it has no state.
pub struct ProjectorRef;

/// Pixel `i` counts toward the average: every pixel when `opaque_only` is false,
/// otherwise those with alpha above 128.
pub open spec fn counted(rgba: Seq<u8>, i: int, opaque_only: bool) -> bool {
    !opaque_only || rgba[4 * i + 3] > 128
}

/// The sum of channel `ch` over the counted pixels among the first `n`.
pub open spec fn channel_sum(rgba: Seq<u8>, ch: int, n: nat, opaque_only: bool) -> int
    decreases n,
{
    if n == 0 {
        0
    } else {
        channel_sum(rgba, ch, (n - 1) as nat, opaque_only) + if counted(
            rgba,
            n - 1,
            opaque_only,
        ) {
            rgba[4 * (n - 1) + ch] as int
        } else {
            0
        }
    }
}

/// The number of counted pixels among the first `n`.
pub open spec fn counted_pixels(rgba: Seq<u8>, n: nat, opaque_only: bool) -> int
    decreases n,
{
    if n == 0 {
        0
    } else {
        counted_pixels(rgba, (n - 1) as nat, opaque_only) + if counted(rgba, n - 1, opaque_only) {
            1int
        } else {
            0
        }
    }
}

/// `sum / count`, capped at 255.
pub open spec fn mean_byte(sum: int, count: int) -> u8 {
    (if sum / count < 255 {
        sum / count
    } else {
        255
    }) as u8
}

/// The per-channel mean over counted pixels.
pub open spec fn mean_color(rgba: Seq<u8>, n: nat, opaque_only: bool) -> (u8, u8, u8, u8) {
    let c = counted_pixels(rgba, n, opaque_only);
    (
        mean_byte(channel_sum(rgba, 0, n, opaque_only), c),
        mean_byte(channel_sum(rgba, 1, n, opaque_only), c),
        mean_byte(channel_sum(rgba, 2, n, opaque_only), c),
        mean_byte(channel_sum(rgba, 3, n, opaque_only), c),
    )
}

/// The dominant colour of RGBA data: the mean of the pixels with alpha above 128, or of
/// all pixels when none is; black and transparent for less than one pixel.
pub open spec fn dominant_color(rgba: Seq<u8>) -> (u8, u8, u8, u8) {
    let n = (rgba.len() / 4) as nat;
    if rgba.len() < 4 {
        (0, 0, 0, 0)
    } else if counted_pixels(rgba, n, true) > 0 {
        mean_color(rgba, n, true)
    } else {
        mean_color(rgba, n, false)
    }
}

/// Bounds on the sums: each stays within 255 per counted pixel.
proof fn lemma_sum_bounds(rgba: Seq<u8>, ch: int, n: nat, opaque_only: bool)
    requires
        0 <= ch < 4,
        4 * n <= rgba.len(),
    ensures
        0 <= channel_sum(rgba, ch, n, opaque_only) <= 255 * counted_pixels(rgba, n, opaque_only),
        0 <= counted_pixels(rgba, n, opaque_only) <= n,
    decreases n,
{
    if n > 0 {
        lemma_sum_bounds(rgba, ch, (n - 1) as nat, opaque_only);
    }
}

/// Sums of the four channels and the count of the counted pixels.
fn sum_channels(rgba: &[u8], count: usize, opaque_only: bool) -> (r: (u64, u64, u64, u64, u64))
    requires
        4 * count <= rgba@.len(),
        count < 0x0100_0000_0000_0000,
    ensures
        r.0 == channel_sum(rgba@, 0, count as nat, opaque_only),
        r.1 == channel_sum(rgba@, 1, count as nat, opaque_only),
        r.2 == channel_sum(rgba@, 2, count as nat, opaque_only),
        r.3 == channel_sum(rgba@, 3, count as nat, opaque_only),
        r.4 == counted_pixels(rgba@, count as nat, opaque_only),
{
    let mut sr: u64 = 0;
    let mut sg: u64 = 0;
    let mut sb: u64 = 0;
    let mut sa: u64 = 0;
    let mut n: u64 = 0;
    let len = rgba.len();
    let mut i: usize = 0;
    while i < count
        invariant
            len == rgba@.len(),
            4 * count <= rgba@.len(),
            count < 0x0100_0000_0000_0000,
            i <= count,
            sr == channel_sum(rgba@, 0, i as nat, opaque_only),
            sg == channel_sum(rgba@, 1, i as nat, opaque_only),
            sb == channel_sum(rgba@, 2, i as nat, opaque_only),
            sa == channel_sum(rgba@, 3, i as nat, opaque_only),
            n == counted_pixels(rgba@, i as nat, opaque_only),
        decreases count - i,
    {
        proof {
            lemma_sum_bounds(rgba@, 0, i as nat, opaque_only);
            lemma_sum_bounds(rgba@, 1, i as nat, opaque_only);
            lemma_sum_bounds(rgba@, 2, i as nat, opaque_only);
            lemma_sum_bounds(rgba@, 3, i as nat, opaque_only);
        }
        let off = i * 4;
        if !opaque_only || rgba[off + 3] > 128 {
            sr = sr + rgba[off] as u64;
            sg = sg + rgba[off + 1] as u64;
            sb = sb + rgba[off + 2] as u64;
            sa = sa + rgba[off + 3] as u64;
            n = n + 1;
        }
        i += 1;
    }
    (sr, sg, sb, sa, n)
}

/// `sum / count` capped at 255.
fn mean_of(sum: u64, count: u64) -> (r: u8)
    requires
        count > 0,
    ensures
        r == mean_byte(sum as int, count as int),
{
    let m = sum / count;
    if m < 255 {
        m as u8
    } else {
        255
    }
}

/// The dominant colour of RGBA pixel data (see `dominant_color`).
pub fn dominant_rgba(rgba: &[u8], _w: u32, _h: u32) -> (r: (u8, u8, u8, u8))
    requires
        rgba@.len() < 0x0100_0000_0000_0000,
    ensures
        r == dominant_color(rgba@),
{
    if rgba.len() < 4 {
        return (0, 0, 0, 0);
    }
    let count = rgba.len() / 4;
    let (sr, sg, sb, sa, n) = sum_channels(rgba, count, true);
    if n > 0 {
        return (mean_of(sr, n), mean_of(sg, n), mean_of(sb, n), mean_of(sa, n));
    }
    let (sr, sg, sb, sa, n) = sum_channels(rgba, count, false);
    proof {
        assert forall|k: nat| k <= count implies counted_pixels(rgba@, k, false) == k by {
            lemma_all_counted(rgba@, k);
        }
    }
    (mean_of(sr, n), mean_of(sg, n), mean_of(sb, n), mean_of(sa, n))
}

/// Without the alpha filter every pixel counts.
proof fn lemma_all_counted(rgba: Seq<u8>, k: nat)
    ensures
        counted_pixels(rgba, k, false) == k,
    decreases k,
{
    if k > 0 {
        lemma_all_counted(rgba, (k - 1) as nat);
    }
}

} // verus!
