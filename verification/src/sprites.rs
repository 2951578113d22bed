use vstd::prelude::*;

use crate::pokemon::Pokemon;

verus! {

/// A decoded sprite: an RGBA pixel buffer in row-major order, four bytes per
/// pixel.
pub struct Image {
    pub width: u32,
    pub height: u32,
    pub data: Vec<u8>,
}

impl Image {
    /// The buffer holds exactly four bytes for every pixel.
    pub open spec fn wf(self) -> bool {
        self.data.len() == 4 * self.width * self.height
    }

    /// The bytes of row `y`.
    pub open spec fn row(self, y: int) -> Seq<u8> {
        self.data@.subrange(4 * y * self.width, 4 * y * self.width + 4 * self.width)
    }
}

/// Fully transparent bytes.
pub open spec fn zeros(n: int) -> Seq<u8> {
    Seq::new(n as nat, |i: int| 0u8)
}

/// The sprites of an ordered batch.
pub open spec fn sprites_of(ps: Seq<Pokemon>) -> Seq<Image> {
    ps.map_values(|p: Pokemon| p.sprite)
}

pub open spec fn all_wf(s: Seq<Image>) -> bool {
    forall|k: int| 0 <= k < s.len() ==> (#[trigger] s[k]).wf()
}

/// The composed width: the widths summed.
pub open spec fn widths_sum(s: Seq<Image>) -> int
    decreases s.len(),
{
    if s.len() == 0 {
        0
    } else {
        widths_sum(s.drop_last()) + s.last().width
    }
}

/// The composed height: the tallest sprite's height.
pub open spec fn heights_max(s: Seq<Image>) -> int
    decreases s.len(),
{
    if s.len() == 0 {
        0
    } else {
        let rest = heights_max(s.drop_last());
        if s.last().height > rest {
            s.last().height as int
        } else {
            rest
        }
    }
}

/// The bytes one sprite contributes to output row `y` of a composition that
/// is `hout` rows tall: its own row once the rows above its top have passed,
/// transparent filler before that. Bottoms coincide at row `hout`.
pub open spec fn row_bytes(img: Image, hout: int, y: int) -> Seq<u8> {
    if y >= hout - img.height {
        img.row(y - (hout - img.height))
    } else {
        zeros(4 * img.width)
    }
}

/// Output row `y` across the first `k` sprites, left to right with no gap.
pub open spec fn out_row(s: Seq<Image>, hout: int, y: int, k: int) -> Seq<u8>
    decreases k,
{
    if k <= 0 {
        Seq::<u8>::empty()
    } else {
        out_row(s, hout, y, k - 1) + row_bytes(s[k - 1], hout, y)
    }
}

/// The first `y` output rows, top to bottom.
pub open spec fn out_rows(s: Seq<Image>, hout: int, y: int) -> Seq<u8>
    decreases y,
{
    if y <= 0 {
        Seq::<u8>::empty()
    } else {
        out_rows(s, hout, y - 1) + out_row(s, hout, y - 1, s.len() as int)
    }
}

// ---------------------------------------------------------------------------
// Arithmetic facts about the composed dimensions.
// ---------------------------------------------------------------------------

pub proof fn lemma_widths_sum_take(s: Seq<Image>, k: int)
    requires
        0 <= k < s.len(),
    ensures
        widths_sum(s.take(k + 1)) == widths_sum(s.take(k)) + s[k].width,
{
    assert(s.take(k + 1).drop_last() =~= s.take(k));
}

pub proof fn lemma_widths_sum_nonneg(s: Seq<Image>)
    ensures
        widths_sum(s) >= 0,
    decreases s.len(),
{
    if s.len() > 0 {
        lemma_widths_sum_nonneg(s.drop_last());
    }
}

pub proof fn lemma_widths_sum_prefix(s: Seq<Image>, k: int)
    requires
        0 <= k <= s.len(),
    ensures
        widths_sum(s.take(k)) <= widths_sum(s),
    decreases s.len() - k,
{
    if k == s.len() {
        assert(s.take(k) =~= s);
    } else {
        lemma_widths_sum_take(s, k);
        lemma_widths_sum_prefix(s, k + 1);
    }
}

pub proof fn lemma_heights_max_take(s: Seq<Image>, k: int)
    requires
        0 <= k < s.len(),
    ensures
        heights_max(s.take(k + 1)) == if s[k].height > heights_max(s.take(k)) {
            s[k].height as int
        } else {
            heights_max(s.take(k))
        },
{
    assert(s.take(k + 1).drop_last() =~= s.take(k));
}

pub proof fn lemma_heights_max_nonneg(s: Seq<Image>)
    ensures
        heights_max(s) >= 0,
    decreases s.len(),
{
    if s.len() > 0 {
        lemma_heights_max_nonneg(s.drop_last());
    }
}

/// No sprite stands taller than the composition.
pub proof fn lemma_height_le(s: Seq<Image>, k: int)
    requires
        0 <= k < s.len(),
    ensures
        s[k].height <= heights_max(s),
    decreases s.len(),
{
    if k == s.len() - 1 {
        lemma_heights_max_nonneg(s.drop_last());
    } else {
        lemma_height_le(s.drop_last(), k);
    }
}

/// A sprite's row, where it exists, is four bytes per pixel wide.
pub proof fn lemma_row_bytes_len(img: Image, hout: int, y: int)
    requires
        img.wf(),
        0 <= y < hout,
    ensures
        row_bytes(img, hout, y).len() == 4 * img.width,
{
    if y >= hout - img.height {
        let sy = y - (hout - img.height);
        assert(0 <= sy < img.height);
        assert(4 * sy * img.width + 4 * img.width <= 4 * img.width * img.height)
            by (nonlinear_arith)
            requires
                0 <= sy,
                sy < img.height,
        ;
        assert(0 <= 4 * sy * img.width) by (nonlinear_arith)
            requires
                0 <= sy,
        ;
    }
}

pub proof fn lemma_out_row_len(s: Seq<Image>, hout: int, y: int, k: int)
    requires
        all_wf(s),
        0 <= y < hout,
        0 <= k <= s.len(),
    ensures
        out_row(s, hout, y, k).len() == 4 * widths_sum(s.take(k)),
    decreases k,
{
    if k == 0 {
        assert(s.take(0) =~= Seq::<Image>::empty());
    } else {
        lemma_out_row_len(s, hout, y, k - 1);
        lemma_row_bytes_len(s[k - 1], hout, y);
        lemma_widths_sum_take(s, k - 1);
    }
}

pub proof fn lemma_out_rows_len(s: Seq<Image>, hout: int, y: int)
    requires
        all_wf(s),
        0 <= y <= hout,
    ensures
        out_rows(s, hout, y).len() == y * (4 * widths_sum(s)),
    decreases y,
{
    if y == 0 {
        assert(out_rows(s, hout, 0).len() == 0);
    } else {
        lemma_out_rows_len(s, hout, y - 1);
        lemma_out_row_len(s, hout, y - 1, s.len() as int);
        assert(s.take(s.len() as int) =~= s);
        assert((y - 1) * (4 * widths_sum(s)) + 4 * widths_sum(s) == y * (4 * widths_sum(s)))
            by (nonlinear_arith);
    }
}

// ---------------------------------------------------------------------------
// The compositor.
// ---------------------------------------------------------------------------

/// Concatenate the sprites of a batch left to right with no gap, bottoms
/// aligned: the result is as wide as the widths summed and as tall as the
/// tallest sprite, shorter sprites padded above with transparent pixels. An
/// empty batch composes to an empty image.
pub fn combine_sprites(pokemons: &Vec<Pokemon>) -> (r: Image)
    requires
        all_wf(sprites_of(pokemons@)),
        widths_sum(sprites_of(pokemons@)) <= u32::MAX,
        heights_max(sprites_of(pokemons@)) <= u32::MAX,
        4 * widths_sum(sprites_of(pokemons@)) * heights_max(sprites_of(pokemons@)) <= usize::MAX,
    ensures
        r.width == widths_sum(sprites_of(pokemons@)),
        r.height == heights_max(sprites_of(pokemons@)),
        r.data@ == out_rows(
            sprites_of(pokemons@),
            heights_max(sprites_of(pokemons@)),
            heights_max(sprites_of(pokemons@)),
        ),
        r.wf(),
{
    let ghost s = sprites_of(pokemons@);
    let n = pokemons.len();
    proof {
        assert(s.len() == n);
    }
    let mut w_total: u32 = 0;
    let mut k: usize = 0;
    while k < n
        invariant
            n == pokemons.len(),
            s == sprites_of(pokemons@),
            k <= n,
            widths_sum(s) <= u32::MAX,
            w_total == widths_sum(s.take(k as int)),
        decreases n - k,
    {
        proof {
            lemma_widths_sum_take(s, k as int);
            lemma_widths_sum_prefix(s, k + 1);
            lemma_widths_sum_nonneg(s.take(k + 1));
        }
        w_total = w_total + pokemons[k].sprite.width;
        k = k + 1;
    }
    proof {
        assert(s.take(n as int) =~= s);
    }
    let mut h_total: u32 = 0;
    let mut k: usize = 0;
    while k < n
        invariant
            n == pokemons.len(),
            s == sprites_of(pokemons@),
            k <= n,
            heights_max(s) <= u32::MAX,
            h_total == heights_max(s.take(k as int)),
        decreases n - k,
    {
        proof {
            lemma_heights_max_take(s, k as int);
        }
        if pokemons[k].sprite.height > h_total {
            h_total = pokemons[k].sprite.height;
        }
        k = k + 1;
    }
    proof {
        assert(s.take(n as int) =~= s);
    }
    let mut data: Vec<u8> = Vec::new();
    let mut y: u32 = 0;
    while y < h_total
        invariant
            n == pokemons.len(),
            s == sprites_of(pokemons@),
            all_wf(s),
            w_total == widths_sum(s),
            h_total == heights_max(s),
            4 * widths_sum(s) * heights_max(s) <= usize::MAX,
            y <= h_total,
            data@ == out_rows(s, h_total as int, y as int),
        decreases h_total - y,
    {
        let mut k: usize = 0;
        while k < n
            invariant
                n == pokemons.len(),
                s == sprites_of(pokemons@),
                all_wf(s),
                w_total == widths_sum(s),
                h_total == heights_max(s),
                4 * widths_sum(s) * heights_max(s) <= usize::MAX,
                y < h_total,
                k <= n,
                data@ == out_rows(s, h_total as int, y as int) + out_row(
                    s,
                    h_total as int,
                    y as int,
                    k as int,
                ),
            decreases n - k,
        {
            let img = &pokemons[k].sprite;
            proof {
                assert(s[k as int] == pokemons@[k as int].sprite);
                lemma_height_le(s, k as int);
                lemma_widths_sum_nonneg(s);
                lemma_heights_max_nonneg(s);
                lemma_widths_sum_prefix_width(s, k as int);
                assert(4 * (img.width as int) <= 4 * widths_sum(s) * heights_max(s))
                    by (nonlinear_arith)
                    requires
                        heights_max(s) >= 1,
                        0 <= (img.width as int) <= widths_sum(s),
                ;
            }
            let wk = img.width as usize;
            if y >= h_total - img.height {
                let sy = y - (h_total - img.height);
                proof {
                    assert(sy < img.height);
                    assert(4 * (img.width as int) * (sy as int) + 4 * (img.width as int) <= 4 * (
                    img.width as int) * (img.height as int) && 0 <= 4 * (img.width as int) * (
                    sy as int) && 4 * (img.width as int) * (sy as int) == 4 * (sy as int) * (
                    img.width as int)) by (nonlinear_arith)
                        requires
                            0 <= sy,
                            (sy as int) < (img.height as int),
                            0 <= img.width,
                    ;
                }
                let base = 4 * wk * (sy as usize);
                let mut j: usize = 0;
                let ghost row_start = data@;
                while j < 4 * wk
                    invariant
                        n == pokemons.len(),
                        s == sprites_of(pokemons@),
                        k < n,
                        *img == s[k as int],
                        img.wf(),
                        j <= 4 * wk,
                        wk == img.width,
                        sy < img.height,
                        base == 4 * (sy as int) * (img.width as int),
                        base + 4 * wk <= img.data.len(),
                        data@ == row_start + img.row(sy as int).take(j as int),
                    decreases 4 * wk - j,
                {
                    data.push(img.data[base + j]);
                    proof {
                        assert(img.row(sy as int).take(j + 1) =~= img.row(sy as int).take(
                            j as int,
                        ).push(img.data@[base + j]));
                        assert(data@ =~= row_start + img.row(sy as int).take(j + 1));
                    }
                    j = j + 1;
                }
                proof {
                    assert(img.row(sy as int).take(4 * wk as int) =~= img.row(sy as int));
                    assert(row_bytes(s[k as int], h_total as int, y as int) == img.row(
                        sy as int,
                    ));
                }
            } else {
                let mut j: usize = 0;
                let ghost row_start = data@;
                while j < 4 * wk
                    invariant
                        4 * (wk as int) <= usize::MAX,
                        j <= 4 * wk,
                        data@ == row_start + zeros(j as int),
                    decreases 4 * wk - j,
                {
                    data.push(0u8);
                    proof {
                        assert(data@ =~= row_start + zeros(j + 1));
                    }
                    j = j + 1;
                }
                proof {
                    assert(row_bytes(s[k as int], h_total as int, y as int) == zeros(4 * (
                    img.width as int)));
                }
            }
            proof {
                assert(out_row(s, h_total as int, y as int, k + 1) == out_row(
                    s,
                    h_total as int,
                    y as int,
                    k as int,
                ) + row_bytes(s[k as int], h_total as int, y as int));
                assert(data@ =~= out_rows(s, h_total as int, y as int) + out_row(
                    s,
                    h_total as int,
                    y as int,
                    k + 1,
                ));
            }
            k = k + 1;
        }
        proof {
            assert(out_rows(s, h_total as int, y + 1) == out_rows(s, h_total as int, y as int)
                + out_row(s, h_total as int, y as int, n as int));
            assert(data@ =~= out_rows(s, h_total as int, y + 1));
        }
        y = y + 1;
    }
    proof {
        lemma_out_rows_len(s, h_total as int, h_total as int);
        assert((h_total as int) * (4 * widths_sum(s)) == 4 * widths_sum(s) * heights_max(s))
            by (nonlinear_arith)
            requires
                h_total == heights_max(s),
        ;
    }
    Image { width: w_total, height: h_total, data }
}

// ---------------------------------------------------------------------------
// Laws of composition.
// ---------------------------------------------------------------------------

proof fn lemma_single_rows(img: Image, y: int)
    requires
        img.wf(),
        0 <= y <= img.height,
    ensures
        out_rows(seq![img], img.height as int, y) == img.data@.take(4 * img.width * y),
    decreases y,
{
    let s = seq![img];
    let h = img.height as int;
    let w = img.width as int;
    if y == 0 {
        assert(img.data@.take(0) =~= Seq::<u8>::empty());
    } else {
        lemma_single_rows(img, y - 1);
        assert(out_row(s, h, y - 1, 1) == out_row(s, h, y - 1, 0) + row_bytes(img, h, y - 1));
        assert(out_row(s, h, y - 1, 0) + row_bytes(img, h, y - 1) =~= row_bytes(img, h, y - 1));
        assert(row_bytes(img, h, y - 1) == img.row(y - 1));
        assert(4 * w * (y - 1) + 4 * w == 4 * w * y && 4 * (y - 1) * w == 4 * w * (y - 1) && 0
            <= 4 * w * (y - 1) && 4 * w * y <= 4 * w * img.height) by (nonlinear_arith)
            requires
                0 < y <= img.height,
                0 <= w,
        ;
        assert(img.data@.take(4 * w * (y - 1)) + img.row(y - 1) =~= img.data@.take(4 * w * y));
    }
}

/// Composing a single sprite yields that sprite's own pixels unchanged: the
/// same dimensions and the very same bytes.
pub proof fn lemma_compose_single(img: Image)
    requires
        img.wf(),
    ensures
        widths_sum(seq![img]) == img.width,
        heights_max(seq![img]) == img.height,
        out_rows(seq![img], img.height as int, img.height as int) == img.data@,
{
    lemma_single_rows(img, img.height as int);
    assert(seq![img].drop_last() =~= Seq::<Image>::empty());
    assert(widths_sum(Seq::<Image>::empty()) == 0);
    assert(heights_max(Seq::<Image>::empty()) == 0);
    assert(img.data@.take(4 * img.width * img.height) =~= img.data@);
}

/// Composing two sprites of differing heights: the composition is as tall
/// as the taller sprite, and on every output row the shorter sprite
/// contributes transparent filler while the rows above its top pass and its
/// own rows after that — it sits bottom-aligned beside the taller one.
pub proof fn lemma_compose_pair_bottom_aligned(a: Image, b: Image, y: int)
    requires
        a.wf(),
        b.wf(),
        a.height < b.height,
        0 <= y < b.height,
    ensures
        heights_max(seq![a, b]) == b.height,
        widths_sum(seq![a, b]) == a.width + b.width,
        y < b.height - a.height ==> out_row(seq![a, b], b.height as int, y, 2) == zeros(
            4 * a.width,
        ) + b.row(y),
        y >= b.height - a.height ==> out_row(seq![a, b], b.height as int, y, 2) == a.row(
            y - (b.height - a.height),
        ) + b.row(y),
{
    let s = seq![a, b];
    let h = b.height as int;
    assert(s[0] == a && s[1] == b);
    assert(s.drop_last() =~= seq![a]);
    assert(seq![a].drop_last() =~= Seq::<Image>::empty());
    assert(widths_sum(Seq::<Image>::empty()) == 0);
    assert(heights_max(Seq::<Image>::empty()) == 0);
    assert(heights_max(seq![a]) == a.height as int);
    assert(widths_sum(seq![a]) == a.width as int);
    assert(heights_max(s) == b.height as int);
    assert(widths_sum(s) == a.width + b.width);
    assert(out_row(s, h, y, 2) == out_row(s, h, y, 1) + row_bytes(s[1], h, y));
    assert(out_row(s, h, y, 1) == out_row(s, h, y, 0) + row_bytes(s[0], h, y));
    assert(out_row(s, h, y, 0) + row_bytes(a, h, y) =~= row_bytes(a, h, y));
    assert(row_bytes(b, h, y) == b.row(y));
    if y < h - a.height {
        assert(out_row(s, h, y, 2) =~= zeros(4 * a.width) + b.row(y));
    } else {
        assert(out_row(s, h, y, 2) =~= a.row(y - (h - a.height)) + b.row(y));
    }
}

proof fn lemma_rows_extract(s: Seq<Image>, hout: int, upto: int, y: int)
    requires
        all_wf(s),
        0 <= y < upto <= hout,
    ensures
        out_rows(s, hout, upto).subrange(
            y * (4 * widths_sum(s)),
            (y + 1) * (4 * widths_sum(s)),
        ) == out_row(s, hout, y, s.len() as int),
    decreases upto,
{
    let rlen = 4 * widths_sum(s);
    lemma_out_rows_len(s, hout, upto - 1);
    lemma_out_row_len(s, hout, upto - 1, s.len() as int);
    assert(s.take(s.len() as int) =~= s);
    lemma_widths_sum_nonneg(s);
    if y == upto - 1 {
        assert((y + 1) * rlen == y * rlen + rlen && 0 <= y * rlen) by (nonlinear_arith)
            requires
                0 <= y,
                0 <= rlen,
        ;
        assert(out_rows(s, hout, upto).subrange(y * rlen, y * rlen + rlen) =~= out_row(
            s,
            hout,
            y,
            s.len() as int,
        ));
    } else {
        lemma_rows_extract(s, hout, upto - 1, y);
        lemma_out_rows_len(s, hout, upto);
        assert((y + 1) * rlen <= (upto - 1) * rlen && 0 <= y * rlen && y * rlen <= (y + 1)
            * rlen) by (nonlinear_arith)
            requires
                0 <= y,
                y + 1 <= upto - 1,
                0 <= rlen,
        ;
        assert(out_rows(s, hout, upto).subrange(y * rlen, (y + 1) * rlen) =~= out_rows(
            s,
            hout,
            upto - 1,
        ).subrange(y * rlen, (y + 1) * rlen));
    }
}

/// Row `y` of a composed buffer is exactly what the sprites contribute to
/// that row, laid left to right.
pub proof fn lemma_composed_row(s: Seq<Image>, y: int)
    requires
        all_wf(s),
        0 <= y < heights_max(s),
    ensures
        out_rows(s, heights_max(s), heights_max(s)).subrange(
            y * (4 * widths_sum(s)),
            (y + 1) * (4 * widths_sum(s)),
        ) == out_row(s, heights_max(s), y, s.len() as int),
{
    lemma_rows_extract(s, heights_max(s), heights_max(s), y);
}

/// One width never exceeds the widths summed.
pub proof fn lemma_widths_sum_prefix_width(s: Seq<Image>, k: int)
    requires
        0 <= k < s.len(),
    ensures
        s[k].width <= widths_sum(s),
{
    lemma_widths_sum_take(s, k);
    lemma_widths_sum_prefix(s, k + 1);
    lemma_widths_sum_nonneg(s.take(k));
}

} // verus!
