//! Glyph atlas texture: glyph bitmaps copied into an RGBA texture.

use vstd::prelude::*;
use vstd::arithmetic::div_mod::lemma_fundamental_div_mod_converse;
use vstd::arithmetic::mul::{lemma_mul_inequality, lemma_mul_is_commutative};
use crate::error::{UiError, UiResult};

verus! {

/// Identifier of a glyph.
#[derive(Debug, Clone, Copy, PartialEq, Eq, Hash, Structural)]
pub struct GlyphId(pub u32);

/// The RGBA texture of a font atlas: `texture_width` by `texture_height`
/// pixels of four bytes, row by row.
#[derive(Debug, Clone)]
pub struct FontAtlas {
    pub texture_data: Vec<u8>,
    pub texture_width: u32,
    pub texture_height: u32,
}

/// Byte `i` of the texture `tex`, `tw` pixels wide, after a `w` by `h`
/// glyph bitmap `data` (one byte a pixel, row by row) is copied with its
/// corner at pixel (`x`, `y`): every byte of a covered pixel whose bitmap
/// byte exists takes that byte, all else stays.
pub open spec fn packed_byte(tex: Seq<u8>, tw: int, x: int, y: int, w: int, h: int, data: Seq<u8>, i: int) -> u8 {
    let p = i / 4;
    let px = p % tw;
    let py = p / tw;
    if x <= px < x + w && y <= py < y + h && (py - y) * w + (px - x) < data.len() {
        data[(py - y) * w + (px - x)]
    } else {
        tex[i]
    }
}

/// The texture after the glyph bitmap is copied in.
pub open spec fn packed(tex: Seq<u8>, tw: int, x: int, y: int, w: int, h: int, data: Seq<u8>) -> Seq<u8> {
    Seq::new(tex.len(), |i: int| packed_byte(tex, tw, x, y, w, h, data, i))
}

/// Copying a glyph changes only the bytes of the pixels it covers.
pub proof fn lemma_pack_outside_unchanged(tex: Seq<u8>, tw: int, x: int, y: int, w: int, h: int, data: Seq<u8>, i: int)
    requires
        0 <= i < tex.len(),
        !(x <= (i / 4) % tw < x + w && y <= (i / 4) / tw < y + h),
    ensures
        packed(tex, tw, x, y, w, h, data)[i] == tex[i],
{
}

/// Byte `i` while the copy is under way: the pixels of rows before `row`,
/// and of row `row` before column `col`, are copied.
pub open spec fn partly_packed_byte(
    tex: Seq<u8>,
    tw: int,
    x: int,
    y: int,
    w: int,
    h: int,
    data: Seq<u8>,
    row: int,
    col: int,
    i: int,
) -> u8 {
    let p = i / 4;
    let px = p % tw;
    let py = p / tw;
    if x <= px < x + w && y <= py < y + h && (py - y < row || (py - y == row && px - x < col)) && (py - y) * w + (px
        - x) < data.len() {
        data[(py - y) * w + (px - x)]
    } else {
        tex[i]
    }
}

/// Pixel (`px`, `py`) of a texture `tw` pixels wide is pixel number `py * tw + px`.
proof fn lemma_pixel_of_index(tw: int, px: int, py: int, p: int)
    requires
        tw > 0,
        0 <= px < tw,
        0 <= py,
        p == py * tw + px,
    ensures
        p / tw == py,
        p % tw == px,
{
    lemma_fundamental_div_mod_converse(p, tw, py, px);
}

impl FontAtlas {
    /// The texture holds its pixels and its byte count fits in a `u32`.
    pub open spec fn wf(&self) -> bool {
        &&& self.texture_width * self.texture_height * 4 <= u32::MAX
        &&& self.texture_data@.len() == self.texture_width * self.texture_height * 4
    }

    /// A `width` by `height` texture of zero bytes.
    pub fn new(width: u32, height: u32) -> (a: Self)
        requires
            width * height * 4 <= u32::MAX,
        ensures
            a.wf(),
            a.texture_width == width,
            a.texture_height == height,
            forall|i: int| 0 <= i < a.texture_data@.len() ==> a.texture_data@[i] == 0,
    {
        let n: u32 = width * height * 4;
        let data = vec![0u8; n as usize];
        FontAtlas { texture_data: data, texture_width: width, texture_height: height }
    }

    /// Copies a `width` by `height` glyph bitmap (`data`, one byte a pixel,
    /// row by row) into the texture with its corner at pixel (`x`, `y`), each
    /// byte repeated over the four bytes of its pixel; bitmap bytes past the
    /// end of `data` are skipped. A glyph that does not fit is an invalid
    /// input and changes nothing.
    pub fn pack_glyph_data(&mut self, x: u32, y: u32, width: u32, height: u32, data: &[u8]) -> (r: UiResult<()>)
        requires
            old(self).wf(),
            x + width <= u32::MAX,
            y + height <= u32::MAX,
        ensures
            final(self).wf(),
            final(self).texture_width == old(self).texture_width,
            final(self).texture_height == old(self).texture_height,
            (x + width > old(self).texture_width || y + height > old(self).texture_height) ==> {
                &&& r matches Err(UiError::InvalidInput(m)) && m@ == "Glyph exceeds atlas bounds"@
                &&& final(self).texture_data@ == old(self).texture_data@
            },
            (x + width <= old(self).texture_width && y + height <= old(self).texture_height) ==> {
                &&& r is Ok
                &&& final(self).texture_data@ == packed(
                    old(self).texture_data@,
                    old(self).texture_width as int,
                    x as int,
                    y as int,
                    width as int,
                    height as int,
                    data@,
                )
            },
    {
        let tw = self.texture_width;
        let th = self.texture_height;
        if x + width > tw || y + height > th {
            return Err(UiError::InvalidInput(String::from_str("Glyph exceeds atlas bounds")));
        }
        let ghost tex0 = self.texture_data@;
        let ghost len = tex0.len() as int;
        let mut row: u32 = 0;
        proof {
            assert forall|i: int| 0 <= i < len implies self.texture_data@[i] == partly_packed_byte(
                tex0, tw as int, x as int, y as int, width as int, height as int, data@, 0, 0, i,
            ) by {
                let p = i / 4;
                if y <= p / tw as int && p / tw as int - y < 0 {
                }
            }
        }
        while row < height
            invariant
                0 <= row <= height,
                tw == self.texture_width,
                th == self.texture_height,
                x + width <= tw,
                y + height <= th,
                tw * th * 4 <= u32::MAX,
                self.texture_data@.len() == len,
                len == tw * th * 4,
                forall|i: int| 0 <= i < len ==> self.texture_data@[i] == #[trigger] partly_packed_byte(
                    tex0, tw as int, x as int, y as int, width as int, height as int, data@, row as int, 0, i,
                ),
            decreases height - row,
        {
            let mut col: u32 = 0;
            while col < width
                invariant
                    0 <= row < height,
                    0 <= col <= width,
                    tw == self.texture_width,
                    th == self.texture_height,
                    x + width <= tw,
                    y + height <= th,
                    tw * th * 4 <= u32::MAX,
                    self.texture_data@.len() == len,
                    len == tw * th * 4,
                    forall|i: int| 0 <= i < len ==> self.texture_data@[i] == #[trigger] partly_packed_byte(
                        tex0, tw as int, x as int, y as int, width as int, height as int, data@, row as int, col as int, i,
                    ),
                decreases width - col,
            {
                let py: u32 = y + row;
                let px: u32 = x + col;
                proof {
                    assert((py as int) * (tw as int) + (px as int) < (py as int + 1) * (tw as int)) by (nonlinear_arith)
                        requires
                            px < tw,
                    {
                    }
                    lemma_mul_inequality(py as int + 1, th as int, tw as int);
                    lemma_mul_is_commutative(th as int, tw as int);
                    lemma_mul_inequality(row as int, height as int - 1, width as int);
                    assert((row as int) * (width as int) + (col as int) < (height as int) * (width as int)) by (nonlinear_arith)
                        requires
                            row < height,
                            col < width,
                            (row as int) * (width as int) <= (height as int - 1) * (width as int),
                    {
                    }
                    lemma_mul_inequality(height as int, th as int, width as int);
                    lemma_mul_inequality(width as int, tw as int, th as int);
                    lemma_mul_is_commutative(width as int, th as int);
                }
                let p: u32 = py * tw + px;
                let atlas_idx: u32 = p * 4;
                let data_idx: u32 = row * width + col;
                let ghost before = self.texture_data@;
                if (atlas_idx as usize) + 3 < self.texture_data.len() && (data_idx as usize) < data.len() {
                    let value = data[data_idx as usize];
                    let a = atlas_idx as usize;
                    self.texture_data.set(a, value);
                    self.texture_data.set(a + 1, value);
                    self.texture_data.set(a + 2, value);
                    self.texture_data.set(a + 3, value);
                }
                proof {
                    lemma_pixel_of_index(tw as int, px as int, py as int, p as int);
                    assert forall|i: int| 0 <= i < len implies self.texture_data@[i] == #[trigger] partly_packed_byte(
                        tex0, tw as int, x as int, y as int, width as int, height as int, data@, row as int, col + 1, i,
                    ) by {
                        let q = i / 4;
                        assert(q == q / (tw as int) * (tw as int) + q % (tw as int)) by (nonlinear_arith)
                            requires
                                tw > 0,
                        {
                        }
                        if q == p {
                            assert(atlas_idx <= i < atlas_idx + 4);
                        } else {
                            assert(!(atlas_idx <= i < atlas_idx + 4));
                            assert(before[i] == self.texture_data@[i]);
                            assert(before[i] == partly_packed_byte(
                                tex0, tw as int, x as int, y as int, width as int, height as int, data@, row as int, col as int, i,
                            ));
                        }
                    }
                }
                col = col + 1;
            }
            proof {
                assert forall|i: int| 0 <= i < len implies self.texture_data@[i] == #[trigger] partly_packed_byte(
                    tex0, tw as int, x as int, y as int, width as int, height as int, data@, row + 1, 0, i,
                ) by {
                    assert(self.texture_data@[i] == partly_packed_byte(
                        tex0, tw as int, x as int, y as int, width as int, height as int, data@, row as int, width as int, i,
                    ));
                }
            }
            row = row + 1;
        }
        proof {
            assert(self.texture_data@ =~= packed(tex0, tw as int, x as int, y as int, width as int, height as int, data@)) by {
                assert forall|i: int| 0 <= i < len implies self.texture_data@[i] == packed_byte(
                    tex0, tw as int, x as int, y as int, width as int, height as int, data@, i,
                ) by {
                    assert(self.texture_data@[i] == partly_packed_byte(
                        tex0, tw as int, x as int, y as int, width as int, height as int, data@, height as int, 0, i,
                    ));
                }
            }
        }
        Ok(())
    }
}

} // verus!
