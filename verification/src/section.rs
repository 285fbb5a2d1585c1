//! The bit-packed storage primitive: one scalar channel over a fixed cubic
//! volume of voxels.
//!
//! A section keeps an ordered palette of distinct values seen so far and a
//! packed array of fixed-width palette indices, one per voxel. Writing a
//! value that needs a wider index than the current width triggers a repack:
//! every index is re-read at the old width and rewritten at the new one.
//! Palette entries are never removed, so the common write path never
//! allocates.

use vstd::arithmetic::div_mod::lemma_fundamental_div_mod;
use vstd::arithmetic::mul::lemma_mul_inequality;
use vstd::prelude::*;

use crate::position::BlockPosition;

verus! {

/// Width of a section in voxels along the x axis.
pub const SECTION_WIDTH: usize = 16;

/// Height of a section in voxels along the y axis.
pub const SECTION_HEIGHT: usize = 16;

/// Depth of a section in voxels along the z axis.
pub const SECTION_DEPTH: usize = 16;

/// Number of voxels in a section.
pub const SECTION_VOLUME: usize = SECTION_WIDTH * SECTION_HEIGHT * SECTION_DEPTH;

/// Whether a position lies inside the bounds of a single section.
pub open spec fn in_section_bounds(pos: BlockPosition) -> bool {
    &&& 0 <= pos.x < SECTION_WIDTH
    &&& 0 <= pos.y < SECTION_HEIGHT
    &&& 0 <= pos.z < SECTION_DEPTH
}

/// The flat voxel index of a position, row-major with x as the most
/// significant dimension.
pub open spec fn spec_item_index(pos: BlockPosition) -> int {
    pos.x * (SECTION_HEIGHT * SECTION_DEPTH) + pos.y * SECTION_DEPTH + pos.z
}

/// A mask with the lowest `width` bits set.
pub open spec fn spec_mask(width: u64) -> u64
    recommends
        1 <= width <= 64,
{
    u64::MAX >> ((64 - width) as u64)
}

/// The fixed-width field stored for voxel `k` in the packed words `data`:
/// the bit span starts at bit `k * bits` of the bit stream and may straddle
/// two adjacent words.
pub open spec fn spec_slot(data: Seq<u64>, k: int, bits: u64) -> u64
    recommends
        1 <= bits <= 64,
        0 <= k < SECTION_VOLUME,
        data.len() == 64 * bits,
{
    let off = k * bits;
    let w = off / 64;
    let b = (off % 64) as u64;
    if b + bits <= 64 {
        (data[w] >> b) & spec_mask(bits)
    } else {
        (data[w] >> b) | ((data[w + 1] & spec_mask((b + bits - 64) as u64)) << ((64 - b) as u64))
    }
}

/// Both span layouts read zero out of all-zero words.
proof fn lemma_zero_word_reads_zero(b: u64, m: u64, m2: u64, s: u64)
    by (bit_vector)
    ensures
        (0u64 >> b) & m == 0u64,
        (0u64 >> b) | ((0u64 & m2) << s) == 0u64,
{
}

/// A narrower mask is no larger than a wider one.
proof fn lemma_mask_monotone(w1: u64, w2: u64)
    by (bit_vector)
    requires
        1 <= w1 <= w2 <= 64,
    ensures
        spec_mask(w1) <= spec_mask(w2),
{
}

/// A value that fits in `width` bits survives a masked span update within
/// one word: reading the span back yields the value.
proof fn lemma_span_update_value(x: u64, b: u64, width: u64, v: u64)
    by (bit_vector)
    requires
        b < 64,
        1 <= width <= 64,
        b + width <= 64,
        v <= spec_mask(width),
    ensures
        ({
            let m = spec_mask(width);
            let nx = (x & !(m << b)) | (v << b);
            (nx >> b) & m == v
        }),
{
}

/// A span update leaves every disjoint span of the same word unchanged.
proof fn lemma_span_update_preserves(x: u64, b: u64, width: u64, v: u64, b2: u64, width2: u64)
    by (bit_vector)
    requires
        b < 64,
        1 <= width <= 64,
        b + width <= 64,
        v <= spec_mask(width),
        b2 < 64,
        1 <= width2 <= 64,
        b2 + width2 <= b || b + width <= b2,
    ensures
        ({
            let m = spec_mask(width);
            let nx = (x & !(m << b)) | (v << b);
            (nx >> b2) & spec_mask(width2) == (x >> b2) & spec_mask(width2)
        }),
{
}

/// A span update leaves the word's bits above the span unchanged.
proof fn lemma_span_update_preserves_shr(x: u64, b: u64, width: u64, v: u64, b2: u64)
    by (bit_vector)
    requires
        b < 64,
        1 <= width <= 64,
        b + width <= b2 < 64,
        v <= spec_mask(width),
    ensures
        ({
            let m = spec_mask(width);
            let nx = (x & !(m << b)) | (v << b);
            nx >> b2 == x >> b2
        }),
{
}

/// A span update leaves the word's bits below the span unchanged.
proof fn lemma_span_update_preserves_mask(x: u64, b: u64, width: u64, v: u64, w2: u64)
    by (bit_vector)
    requires
        b < 64,
        1 <= width <= 64,
        b + width <= 64,
        v <= spec_mask(width),
        1 <= w2 <= b,
    ensures
        ({
            let m = spec_mask(width);
            let nx = (x & !(m << b)) | (v << b);
            nx & spec_mask(w2) == x & spec_mask(w2)
        }),
{
}

/// A value split across two words by a straddling update reads back intact.
#[verifier::rlimit(30)]
proof fn lemma_straddle_update_value(x: u64, y: u64, b: u64, bits: u64, v: u64)
    by (bit_vector)
    requires
        0 < b < 64,
        1 <= bits <= 64,
        64 < b + bits,
        v <= spec_mask(bits),
    ensures
        ({
            let mlow = spec_mask((64 - b) as u64);
            let mrem = spec_mask((b + bits - 64) as u64);
            let nx = (x & !(mlow << b)) | ((v & mlow) << b);
            let ny = (y & !mrem) | ((v >> ((64 - b) as u64)) & mrem);
            (nx >> b) | ((ny & mrem) << ((64 - b) as u64)) == v
        }),
{
}

/// An update anchored at the bottom of a word leaves every span above its
/// width unchanged, whether the span is read to the top of the word or
/// masked.
proof fn lemma_low_update_preserves(y: u64, rem: u64, vr: u64, b2: u64, width2: u64)
    by (bit_vector)
    requires
        1 <= rem <= 64,
        rem <= b2 < 64,
        1 <= width2 <= 64,
    ensures
        ({
            let ny = (y & !spec_mask(rem)) | (vr & spec_mask(rem));
            &&& ny >> b2 == y >> b2
            &&& (ny >> b2) & spec_mask(width2) == (y >> b2) & spec_mask(width2)
        }),
{
}

/// Masking can only shrink a value.
proof fn lemma_and_mask_le(v: u64, m: u64)
    by (bit_vector)
    ensures
        v & m <= m,
{
}

/// A right shift by `width` is zero exactly when the value fits in `width`
/// bits.
proof fn lemma_shr_zero_iff(x: u64, width: u64)
    by (bit_vector)
    requires
        1 <= width < 64,
    ensures
        (x >> width == 0) <==> (x <= spec_mask(width)),
{
}

/// Splits a flat voxel index into the index of the word its bit span starts
/// in and the bit offset inside that word.
fn split_index(item_index: usize, bits_per_item: u8) -> (r: (usize, usize))
    requires
        1 <= bits_per_item <= 64,
        item_index < SECTION_VOLUME,
    ensures
        r.0 == (item_index * bits_per_item) as int / 64,
        r.1 == (item_index * bits_per_item) as int % 64,
        r.1 < 64,
        r.0 < 64 * (bits_per_item as int),
        r.1 + bits_per_item > 64 ==> r.0 + 1 < 64 * (bits_per_item as int),
{
    proof {
        assert(item_index * bits_per_item <= 4095 * 64 && (item_index + 1) * bits_per_item <= 4096
            * bits_per_item) by (nonlinear_arith)
            requires
                item_index < 4096,
                1 <= bits_per_item <= 64,
        ;
    }
    let bit_offset: usize = item_index * (bits_per_item as usize);
    let word_index: usize = bit_offset / 64;
    let bit_in_word: usize = bit_offset % 64;
    proof {
        let off = bit_offset as int;
        let bits = bits_per_item as int;
        lemma_fundamental_div_mod(off, 64);
        lemma_mul_inequality(item_index as int + 1, SECTION_VOLUME as int, bits);
        assert((item_index as int + 1) * bits == item_index as int * bits + bits) by (nonlinear_arith);
        assert(off + bits <= 4096 * bits);
        assert(4096 * bits == 64 * (64 * bits));
    }
    (word_index, bit_in_word)
}

/// A mask with the lowest `width` bits set.
fn mask_exec(width: u64) -> (r: u64)
    requires
        1 <= width <= 64,
    ensures
        r == spec_mask(width),
{
    u64::MAX >> (64 - width)
}

/// Allocates a vector of `n` all-zero words.
fn zero_words(n: usize) -> (r: Vec<u64>)
    ensures
        r@.len() == n,
        forall|i: int| 0 <= i < n ==> r@[i] == 0u64,
{
    let mut words: Vec<u64> = Vec::new();
    let mut i: usize = 0;
    while i < n
        invariant
            i <= n,
            words@.len() == i,
            forall|t: int| 0 <= t < i ==> words@[t] == 0u64,
        decreases n - i,
    {
        words.push(0);
        i += 1;
    }
    words
}

/// The number of words needed to hold the packed indices of a whole section
/// at a given bit width.
fn data_len_for(bits_per_item: u8) -> (r: usize)
    requires
        1 <= bits_per_item <= 64,
    ensures
        r == 64 * (bits_per_item as int),
{
    proof {
        assert(SECTION_VOLUME == 4096);
    }
    let total_bits_needed: usize = (bits_per_item as usize) * SECTION_VOLUME;
    (total_bits_needed + 63) / 64
}

/// The smallest bit width that can represent `max_index`.
fn bits_needed(max_index: u64) -> (r: u8)
    ensures
        1 <= r <= 64,
        max_index <= spec_mask(r as u64),
{
    let mut b: u8 = 1;
    while b < 64 && (max_index >> (b as u64)) != 0
        invariant
            1 <= b <= 64,
        decreases 64 - b,
    {
        b += 1;
    }
    proof {
        if b < 64 {
            lemma_shr_zero_iff(max_index, b as u64);
        } else {
            assert(max_index <= spec_mask(64u64)) by (bit_vector);
        }
    }
    b
}

/// The bit-packed storage for one scalar channel over a section's volume.
pub struct Section {
    data: Vec<u64>,
    palette: Vec<u64>,
    bits_per_item: u8,
}

impl View for Section {
    type V = Seq<u64>;

    /// The value stored for each voxel of the section, in flat index order:
    /// the palette entry selected by the packed index of that voxel.
    closed spec fn view(&self) -> Seq<u64> {
        Seq::new(
            SECTION_VOLUME as nat,
            |k: int| self.palette@[spec_slot(self.data@, k, self.bits_per_item as u64) as int],
        )
    }
}

impl Section {
    /// The packed words are sized for the bit width, the palette always
    /// holds the implicit default zero at index 0 and fits the bit width,
    /// and every stored index selects a palette entry.
    pub closed spec fn wf(&self) -> bool {
        &&& 1 <= self.bits_per_item <= 64
        &&& self.data@.len() == 64 * (self.bits_per_item as int)
        &&& self.palette@.len() >= 1
        &&& self.palette@[0] == 0
        &&& self.palette@.len() - 1 <= spec_mask(self.bits_per_item as u64)
        &&& forall|k: int|
            0 <= k < SECTION_VOLUME ==> (#[trigger] spec_slot(
                self.data@,
                k,
                self.bits_per_item as u64,
            )) < self.palette@.len()
    }

    /// A section is empty when its palette holds exactly one entry and that
    /// entry is zero: nothing but the default has ever been written.
    pub closed spec fn spec_is_empty(&self) -> bool {
        self.palette@.len() == 1 && self.palette@[0] == 0
    }

    /// Extracts the palette index packed at a flat voxel index.
    fn palette_index(&self, item_index: usize) -> (r: u64)
        requires
            1 <= self.bits_per_item <= 64,
            self.data@.len() == 64 * (self.bits_per_item as int),
            item_index < SECTION_VOLUME,
        ensures
            r == spec_slot(self.data@, item_index as int, self.bits_per_item as u64),
    {
        let (word_index, bit_in_word) = split_index(item_index, self.bits_per_item);
        let b: u64 = bit_in_word as u64;
        let bits: u64 = self.bits_per_item as u64;

        let item: u64 = self.data[word_index];

        if b + bits <= 64 {
            (item >> b) & mask_exec(bits)
        } else {
            let rem: u64 = b + bits - 64;
            let next_word: u64 = self.data[word_index + 1];
            (item >> b) | ((next_word & mask_exec(rem)) << (64 - b))
        }
    }

    /// Writes a palette index into the bit span of a flat voxel index,
    /// leaving the span of every other voxel unchanged.
    fn set_item_ex(&mut self, item_index: usize, palette_index: u64)
        requires
            1 <= old(self).bits_per_item <= 64,
            old(self).data@.len() == 64 * (old(self).bits_per_item as int),
            item_index < SECTION_VOLUME,
            palette_index <= spec_mask(old(self).bits_per_item as u64),
        ensures
            final(self).bits_per_item == old(self).bits_per_item,
            final(self).palette == old(self).palette,
            final(self).data@.len() == old(self).data@.len(),
            spec_slot(
                final(self).data@,
                item_index as int,
                old(self).bits_per_item as u64,
            ) == palette_index,
            forall|j: int|
                0 <= j < SECTION_VOLUME && j != item_index ==> #[trigger] spec_slot(
                    final(self).data@,
                    j,
                    old(self).bits_per_item as u64,
                ) == spec_slot(old(self).data@, j, old(self).bits_per_item as u64),
    {
        let ghost old_d = self.data@;
        let ghost k = item_index as int;
        let ghost bitsi = self.bits_per_item as int;

        let (w, bit_in_word) = split_index(item_index, self.bits_per_item);
        let b: u64 = bit_in_word as u64;
        let bits: u64 = self.bits_per_item as u64;
        let v: u64 = palette_index;

        if b + bits <= 64 {
            let m: u64 = mask_exec(bits);
            let x: u64 = self.data[w];
            let nx: u64 = (x & !(m << b)) | (v << b);
            self.data[w] = nx;

            proof {
                let new_d = self.data@;
                lemma_span_update_value(x, b, bits, v);
                assert forall|j: int| 0 <= j < SECTION_VOLUME && j != k implies spec_slot(
                    new_d,
                    j,
                    bits,
                ) == spec_slot(old_d, j, bits) by {
                    lemma_slot_preserved_plain(old_d, new_d, k, j, bitsi, w as int, b, v);
                }
            }
        } else {
            let mlow: u64 = mask_exec(64 - b);
            let rem: u64 = b + bits - 64;
            let mrem: u64 = mask_exec(rem);
            let x: u64 = self.data[w];
            let y: u64 = self.data[w + 1];
            let nx: u64 = (x & !(mlow << b)) | ((v & mlow) << b);
            let ny: u64 = (y & !mrem) | ((v >> (64 - b)) & mrem);
            self.data[w] = nx;
            self.data[w + 1] = ny;

            proof {
                let new_d = self.data@;
                lemma_straddle_update_value(x, y, b, bits, v);
                assert forall|j: int| 0 <= j < SECTION_VOLUME && j != k implies spec_slot(
                    new_d,
                    j,
                    bits,
                ) == spec_slot(old_d, j, bits) by {
                    lemma_slot_preserved_straddle(old_d, new_d, k, j, bitsi, w as int, b, v);
                }
            }
        }
    }

    /// Creates a new all-zero section with the given initial bit width.
    ///
    /// The more bits per item the more memory, but the less likely a later
    /// write is to trigger a repack.
    pub fn new(bits_per_item: u8) -> (r: Self)
        requires
            1 <= bits_per_item <= 64,
        ensures
            r.wf(),
            r.spec_is_empty(),
            r@.len() == SECTION_VOLUME,
            forall|k: int| 0 <= k < SECTION_VOLUME ==> r@[k] == 0u64,
    {
        let data_len: usize = data_len_for(bits_per_item);
        let mut palette: Vec<u64> = Vec::new();
        palette.push(0);

        let r = Section { data: zero_words(data_len), palette, bits_per_item };
        proof {
            lemma_all_zero_words_read_zero(r.data@, bits_per_item as u64);
        }
        r
    }

    /// Returns whether there is only one palette entry and it is zero:
    /// nothing but the default value has ever been written.
    pub fn is_empty(&self) -> (r: bool)
        requires
            self.wf(),
        ensures
            r == self.spec_is_empty(),
    {
        self.palette.len() == 1 && self.palette[0] == 0
    }

    /// The flat voxel index of a position inside the section.
    fn item_index(pos: BlockPosition) -> (r: usize)
        requires
            in_section_bounds(pos),
        ensures
            r == spec_item_index(pos),
            r < SECTION_VOLUME,
    {
        (pos.x as usize) * (SECTION_HEIGHT * SECTION_DEPTH) + (pos.y as usize) * SECTION_DEPTH + (
        pos.z as usize)
    }

    /// Gets the value stored for the voxel at a position.
    pub fn item(&self, pos: BlockPosition) -> (r: u64)
        requires
            self.wf(),
            in_section_bounds(pos),
        ensures
            r == self@[spec_item_index(pos)],
    {
        let item_index: usize = Self::item_index(pos);
        let palette_index: u64 = self.palette_index(item_index);
        let palette_len: usize = self.palette.len();
        proof {
            assert(spec_slot(self.data@, item_index as int, self.bits_per_item as u64)
                < self.palette@.len());
            assert(palette_index < palette_len);
        }
        self.palette[palette_index as usize]
    }

    /// Sets the value stored for the voxel at a position.
    ///
    /// A value already in the palette reuses its index; a new value is
    /// appended, first widening the packed indices if the palette has
    /// outgrown the current width. Either way every other voxel keeps its
    /// value, so a read after a write returns exactly what was written,
    /// repack or not.
    pub fn set_item(&mut self, pos: BlockPosition, item: u64)
        requires
            old(self).wf(),
            in_section_bounds(pos),
        ensures
            final(self).wf(),
            final(self)@ == old(self)@.update(spec_item_index(pos), item),
            final(self).spec_is_empty() == (old(self).spec_is_empty() && item == 0),
    {
        let item_index: usize = Self::item_index(pos);

        let mut found: Option<usize> = None;
        let mut i: usize = 0;
        while i < self.palette.len() && found.is_none()
            invariant
                i <= self.palette@.len(),
                *self == *old(self),
                match found {
                    Some(pi) => pi < self.palette@.len() && self.palette@[pi as int] == item,
                    None => forall|t: int| 0 <= t < i ==> self.palette@[t] != item,
                },
            decreases self.palette@.len() - i,
        {
            if self.palette[i] == item {
                found = Some(i);
            }
            i += 1;
        }

        match found {
            Some(palette_index) => {
                self.set_item_ex(item_index, palette_index as u64);
                proof {
                    assert(self@ =~= old(self)@.update(spec_item_index(pos), item));
                }
            },
            None => {
                self.palette.push(item);

                let max_index: u64 = (self.palette.len() - 1) as u64;
                let used_bits_per_item: u8 = bits_needed(max_index);
                if used_bits_per_item > self.bits_per_item {
                    self.repack(used_bits_per_item);
                } else {
                    proof {
                        lemma_mask_monotone(
                            used_bits_per_item as u64,
                            self.bits_per_item as u64,
                        );
                    }
                }

                let palette_index: usize = self.palette.len() - 1;
                self.set_item_ex(item_index, palette_index as u64);
                proof {
                    assert(self@ =~= old(self)@.update(spec_item_index(pos), item));
                }
            },
        }
    }

    /// Re-encodes every packed index at a wider bit width, leaving the
    /// value stored for every voxel unchanged.
    fn repack(&mut self, new_bits_per_item: u8)
        requires
            1 <= old(self).bits_per_item <= 64,
            old(self).data@.len() == 64 * (old(self).bits_per_item as int),
            old(self).palette@.len() >= 1,
            forall|k: int|
                0 <= k < SECTION_VOLUME ==> (#[trigger] spec_slot(
                    old(self).data@,
                    k,
                    old(self).bits_per_item as u64,
                )) < old(self).palette@.len(),
            old(self).bits_per_item <= new_bits_per_item <= 64,
            old(self).palette@.len() - 1 <= spec_mask(new_bits_per_item as u64),
        ensures
            final(self).bits_per_item == new_bits_per_item,
            final(self).palette == old(self).palette,
            final(self).data@.len() == 64 * (new_bits_per_item as int),
            forall|k: int|
                0 <= k < SECTION_VOLUME ==> (#[trigger] spec_slot(
                    final(self).data@,
                    k,
                    new_bits_per_item as u64,
                )) == spec_slot(old(self).data@, k, old(self).bits_per_item as u64),
    {
        let ghost old_d = self.data@;
        let ghost old_bits = self.bits_per_item as u64;

        let mut all_palette_indices: Vec<u64> = Vec::new();
        let mut item_index: usize = 0;
        while item_index < SECTION_VOLUME
            invariant
                item_index <= SECTION_VOLUME,
                self.data@ == old_d,
                self.bits_per_item == old(self).bits_per_item,
                self.palette@ == old(self).palette@,
                1 <= self.bits_per_item <= 64,
                self.data@.len() == 64 * (self.bits_per_item as int),
                old_bits == self.bits_per_item as u64,
                all_palette_indices@.len() == item_index,
                forall|t: int|
                    0 <= t < item_index ==> all_palette_indices@[t] == spec_slot(
                        old_d,
                        t,
                        old_bits,
                    ),
            decreases SECTION_VOLUME - item_index,
        {
            all_palette_indices.push(self.palette_index(item_index));
            item_index += 1;
        }

        self.bits_per_item = new_bits_per_item;
        let new_data_len: usize = data_len_for(new_bits_per_item);
        self.data = zero_words(new_data_len);

        proof {
            lemma_all_zero_words_read_zero(self.data@, new_bits_per_item as u64);
            lemma_mask_monotone(old_bits, new_bits_per_item as u64);
            assert forall|t: int| 0 <= t < SECTION_VOLUME implies spec_slot(old_d, t, old_bits)
                <= spec_mask(new_bits_per_item as u64) by {
                assert(spec_slot(old_d, t, old_bits) < old(self).palette@.len());
            }
        }

        let mut item_index: usize = 0;
        while item_index < SECTION_VOLUME
            invariant
                item_index <= SECTION_VOLUME,
                self.bits_per_item == new_bits_per_item,
                1 <= new_bits_per_item <= 64,
                self.palette == old(self).palette,
                self.data@.len() == 64 * (new_bits_per_item as int),
                all_palette_indices@.len() == SECTION_VOLUME,
                forall|t: int|
                    0 <= t < SECTION_VOLUME ==> all_palette_indices@[t] == spec_slot(
                        old_d,
                        t,
                        old_bits,
                    ),
                forall|t: int|
                    0 <= t < SECTION_VOLUME ==> spec_slot(old_d, t, old_bits) <= spec_mask(
                        new_bits_per_item as u64,
                    ),
                forall|t: int|
                    0 <= t < item_index ==> (#[trigger] spec_slot(
                        self.data@,
                        t,
                        new_bits_per_item as u64,
                    )) == spec_slot(old_d, t, old_bits),
            decreases SECTION_VOLUME - item_index,
        {
            let palette_index: u64 = all_palette_indices[item_index];
            self.set_item_ex(item_index, palette_index);
            item_index += 1;
        }
    }
}

/// A section's view always covers exactly the section volume.
pub broadcast proof fn lemma_section_view_len(s: &Section)
    ensures
        (#[trigger] s@).len() == SECTION_VOLUME,
{
}

/// Positions inside the section bounds have flat indices inside the volume,
/// and distinct positions have distinct flat indices.
pub proof fn lemma_item_index_bijective(pos: BlockPosition, other: BlockPosition)
    requires
        in_section_bounds(pos),
        in_section_bounds(other),
    ensures
        0 <= spec_item_index(pos) < SECTION_VOLUME,
        pos != other ==> spec_item_index(pos) != spec_item_index(other),
{
}

/// Writing a value and reading the same position back yields that value,
/// and reading any other position yields what was there before. The
/// statement is over section views, so it holds whether or not the write
/// repacked the storage.
pub proof fn lemma_set_item_round_trip(v: Seq<u64>, pos: BlockPosition, value: u64)
    requires
        v.len() == SECTION_VOLUME,
        in_section_bounds(pos),
    ensures
        v.update(spec_item_index(pos), value)[spec_item_index(pos)] == value,
        forall|other: BlockPosition|
            in_section_bounds(other) && other != pos ==> v.update(
                spec_item_index(pos),
                value,
            )[spec_item_index(other)] == v[#[trigger] spec_item_index(other)],
{
    lemma_item_index_bijective(pos, pos);
    assert forall|other: BlockPosition| in_section_bounds(other) && other != pos implies v.update(
        spec_item_index(pos),
        value,
    )[spec_item_index(other)] == v[#[trigger] spec_item_index(other)] by {
        lemma_item_index_bijective(pos, other);
    }
}

/// An empty section reads zero everywhere: emptiness means nothing but the
/// default value was ever written.
pub proof fn lemma_empty_section_reads_zero(s: &Section)
    requires
        s.wf(),
        s.spec_is_empty(),
    ensures
        forall|k: int| 0 <= k < SECTION_VOLUME ==> s@[k] == 0u64,
{
    assert forall|k: int| 0 <= k < SECTION_VOLUME implies s@[k] == 0u64 by {
        assert(spec_slot(s.data@, k, s.bits_per_item as u64) < s.palette@.len());
    }
}

/// All-zero words decode to an all-zero slot for every voxel.
proof fn lemma_all_zero_words_read_zero(data: Seq<u64>, bits: u64)
    requires
        1 <= bits <= 64,
        data.len() == 64 * bits,
        forall|i: int| 0 <= i < data.len() ==> data[i] == 0u64,
    ensures
        forall|k: int| 0 <= k < SECTION_VOLUME ==> (#[trigger] spec_slot(data, k, bits)) == 0u64,
{
    assert forall|k: int| 0 <= k < SECTION_VOLUME implies (#[trigger] spec_slot(data, k, bits))
        == 0u64 by {
        lemma_span_words_in_bounds(k, bits as int);
        let off = k * (bits as int);
        let b = (off % 64) as u64;
        lemma_zero_word_reads_zero(
            b,
            spec_mask(bits),
            spec_mask((b + bits - 64) as u64),
            (64 - b) as u64,
        );
    }
}

/// The bit spans of two distinct voxels never overlap: the span of the
/// earlier voxel ends at or before the later one begins.
proof fn lemma_spans_disjoint(j: int, k: int, bitsi: int)
    requires
        1 <= bitsi <= 64,
        0 <= j < SECTION_VOLUME,
        0 <= k < SECTION_VOLUME,
        j != k,
    ensures
        j < k ==> j * bitsi + bitsi <= k * bitsi,
        k < j ==> k * bitsi + bitsi <= j * bitsi,
        0 <= j * bitsi,
        0 <= k * bitsi,
{
    if j < k {
        lemma_mul_inequality(j + 1, k, bitsi);
        assert((j + 1) * bitsi == j * bitsi + bitsi) by (nonlinear_arith);
    } else {
        lemma_mul_inequality(k + 1, j, bitsi);
        assert((k + 1) * bitsi == k * bitsi + bitsi) by (nonlinear_arith);
    }
    assert(0 <= j * bitsi && 0 <= k * bitsi) by (nonlinear_arith)
        requires
            0 <= j && 0 <= k && 0 <= bitsi,
    ;
}

/// The bit span of a voxel ends within the packed words: its first word is
/// in bounds, and so is its second when the span straddles.
proof fn lemma_span_words_in_bounds(j: int, bitsi: int)
    requires
        1 <= bitsi <= 64,
        0 <= j < SECTION_VOLUME,
    ensures
        0 <= j * bitsi,
        0 <= j * bitsi / 64 < 64 * bitsi,
        j * bitsi % 64 + bitsi > 64 ==> j * bitsi / 64 + 1 < 64 * bitsi,
{
    let offj = j * bitsi;
    assert(0 <= j * bitsi && (j + 1) * bitsi == j * bitsi + bitsi) by (nonlinear_arith)
        requires
            0 <= j && 1 <= bitsi,
    ;
    lemma_mul_inequality(j + 1, SECTION_VOLUME as int, bitsi);
    lemma_fundamental_div_mod(offj, 64);
    assert(4096 * bitsi == 64 * (64 * bitsi));
}

/// After a plain (single word) span update for voxel `k`, the span of every
/// other voxel `j` reads as before.
proof fn lemma_slot_preserved_plain(
    old_d: Seq<u64>,
    new_d: Seq<u64>,
    k: int,
    j: int,
    bitsi: int,
    w: int,
    b: u64,
    v: u64,
)
    requires
        1 <= bitsi <= 64,
        old_d.len() == 64 * bitsi,
        0 <= k < SECTION_VOLUME,
        0 <= j < SECTION_VOLUME,
        j != k,
        w == k * bitsi / 64,
        b == (k * bitsi % 64) as u64,
        b + bitsi <= 64,
        v <= spec_mask(bitsi as u64),
        new_d == old_d.update(w, (old_d[w] & !(spec_mask(bitsi as u64) << b)) | (v << b)),
    ensures
        spec_slot(new_d, j, bitsi as u64) == spec_slot(old_d, j, bitsi as u64),
{
    let bits = bitsi as u64;
    let x = old_d[w];
    let offj = j * bitsi;
    let offk = k * bitsi;
    let wj = offj / 64;
    let bj = offj % 64;
    lemma_spans_disjoint(j, k, bitsi);
    lemma_span_words_in_bounds(j, bitsi);
    lemma_span_words_in_bounds(k, bitsi);
    lemma_fundamental_div_mod(offj, 64);
    lemma_fundamental_div_mod(offk, 64);

    if bj + bitsi <= 64 {
        // voxel j lies in a single word
        if wj != w {
            assert(new_d[wj] == old_d[wj]);
        } else {
            assert(bj + bitsi <= b || b + bitsi <= bj);
            lemma_span_update_preserves(x, b, bits, v, bj as u64, bits);
        }
    } else {
        // voxel j straddles words wj and wj + 1
        let remj = bj + bitsi - 64;
        if wj == w {
            // j's low part shares the updated word; j starts after k ends
            assert(b + bitsi <= bj);
            lemma_span_update_preserves_shr(x, b, bits, v, bj as u64);
            assert(new_d[wj + 1] == old_d[wj + 1]);
        } else if wj + 1 == w {
            // j's high part shares the updated word; j ends before k starts
            assert(1 <= remj <= b);
            lemma_span_update_preserves_mask(x, b, bits, v, remj as u64);
            assert(new_d[wj] == old_d[wj]);
            assert(new_d[wj + 1] & spec_mask(remj as u64) == old_d[wj + 1] & spec_mask(
                remj as u64,
            ));
        } else {
            assert(new_d[wj] == old_d[wj]);
            assert(new_d[wj + 1] == old_d[wj + 1]);
        }
    }
}

/// After a straddling (two word) span update for voxel `k`, the span of
/// every other voxel `j` reads as before.
proof fn lemma_slot_preserved_straddle(
    old_d: Seq<u64>,
    new_d: Seq<u64>,
    k: int,
    j: int,
    bitsi: int,
    w: int,
    b: u64,
    v: u64,
)
    requires
        1 <= bitsi <= 64,
        old_d.len() == 64 * bitsi,
        0 <= k < SECTION_VOLUME,
        0 <= j < SECTION_VOLUME,
        j != k,
        w == k * bitsi / 64,
        b == (k * bitsi % 64) as u64,
        64 < b + bitsi,
        w + 1 < old_d.len(),
        v <= spec_mask(bitsi as u64),
        new_d == old_d.update(
            w,
            (old_d[w] & !(spec_mask((64 - b) as u64) << b)) | ((v & spec_mask((64 - b) as u64))
                << b),
        ).update(
            w + 1,
            (old_d[w + 1] & !spec_mask((b + bitsi - 64) as u64)) | ((v >> ((64 - b) as u64))
                & spec_mask((b + bitsi - 64) as u64)),
        ),
    ensures
        spec_slot(new_d, j, bitsi as u64) == spec_slot(old_d, j, bitsi as u64),
{
    let bits = bitsi as u64;
    let x = old_d[w];
    let y = old_d[w + 1];
    let rem = (b + bitsi - 64) as u64;
    let vlow = v & spec_mask((64 - b) as u64);
    let vr = v >> ((64 - b) as u64);
    let offj = j * bitsi;
    let offk = k * bitsi;
    let wj = offj / 64;
    let bj = offj % 64;
    lemma_spans_disjoint(j, k, bitsi);
    lemma_span_words_in_bounds(j, bitsi);
    lemma_span_words_in_bounds(k, bitsi);
    lemma_fundamental_div_mod(offj, 64);
    lemma_fundamental_div_mod(offk, 64);
    lemma_and_mask_le(v, spec_mask((64 - b) as u64));
    assert(0 < b);

    if bj + bitsi <= 64 {
        // voxel j lies in a single word
        if wj == w {
            // j ends before k starts inside word w
            assert(bj + bitsi <= b);
            lemma_span_update_preserves(x, b, (64 - b) as u64, vlow, bj as u64, bits);
        } else if wj == w + 1 {
            // j starts after k's spilled bits inside word w + 1
            assert(rem <= bj);
            lemma_low_update_preserves(y, rem, vr, bj as u64, bits);
        } else {
            assert(new_d[wj] == old_d[wj]);
        }
    } else {
        // voxel j straddles words wj and wj + 1
        let remj = bj + bitsi - 64;
        if wj + 1 == w {
            // j's high part shares word w; j ends before k starts
            assert(1 <= remj <= b);
            lemma_span_update_preserves_mask(x, b, (64 - b) as u64, vlow, remj as u64);
            assert(new_d[wj] == old_d[wj]);
        } else if wj == w + 1 {
            // j's low part shares word w + 1; j starts after k's spilled bits
            assert(rem <= bj);
            lemma_low_update_preserves(y, rem, vr, bj as u64, bits);
            assert(new_d[wj + 1] == old_d[wj + 1]);
        } else {
            // two straddling spans can never share their first word
            assert(wj != w);
            assert(new_d[wj] == old_d[wj]);
            assert(new_d[wj + 1] == old_d[wj + 1]);
        }
    }
}

} // verus!
