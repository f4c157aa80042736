//! The Space Image Format: layers of pixels stacked front to back.

use vstd::prelude::*;

verus! {

/// The color of one pixel.
#[derive(Debug, Clone, Copy, PartialEq, Eq, Structural)]
pub enum Color {
    Black,
    White,
    Transparent,
}

impl Color {
    /// The color that a digit of the image data stands for: `0` black,
    /// `1` white, `2` transparent.
    pub fn from_char(c: char) -> (r: Option<Color>)
        ensures
            r == if c == '0' {
                Some(Color::Black)
            } else if c == '1' {
                Some(Color::White)
            } else if c == '2' {
                Some(Color::Transparent)
            } else {
                None::<Color>
            },
    {
        if c == '0' {
            Some(Color::Black)
        } else if c == '1' {
            Some(Color::White)
        } else if c == '2' {
            Some(Color::Transparent)
        } else {
            None
        }
    }
}

/// One layer: its rows, top first.
pub struct Layer {
    pub rows: Vec<Vec<Color>>,
}

/// How many pixels of a layer have each color.
#[derive(Debug, Clone, Copy, PartialEq, Eq, Structural)]
pub struct Frequencies {
    pub black: usize,
    pub white: usize,
    pub transparent: usize,
}

impl Frequencies {
    /// How many pixels have `color`.
    pub fn count(&self, color: Color) -> (r: usize)
        ensures
            r == match color {
                Color::Black => self.black,
                Color::White => self.white,
                Color::Transparent => self.transparent,
            },
    {
        match color {
            Color::Black => self.black,
            Color::White => self.white,
            Color::Transparent => self.transparent,
        }
    }
}

/// How many of the pixels of `row` have `color`.
pub open spec fn count_in(row: Seq<Color>, color: Color) -> nat
    decreases row.len(),
{
    if row.len() == 0 {
        0
    } else {
        count_in(row.drop_last(), color) + if row.last() == color { 1nat } else { 0 }
    }
}

/// How many of the pixels of the first `k` rows have `color`.
pub open spec fn count_rows(rows: Seq<Vec<Color>>, k: int, color: Color) -> nat
    decreases k,
{
    if k <= 0 {
        0
    } else {
        count_rows(rows, k - 1, color) + count_in(rows[k - 1]@, color)
    }
}

impl Layer {
    /// A layer of the given rows.
    pub fn new(rows: Vec<Vec<Color>>) -> (r: Layer)
        ensures
            r.rows@ == rows@,
    {
        Layer { rows }
    }

    /// How many pixels of the layer have each color.
    pub fn frequencies(&self) -> (r: Frequencies)
        requires
            count_rows(self.rows@, self.rows@.len() as int, Color::Black) <= usize::MAX,
            count_rows(self.rows@, self.rows@.len() as int, Color::White) <= usize::MAX,
            count_rows(self.rows@, self.rows@.len() as int, Color::Transparent) <= usize::MAX,
        ensures
            r.black == count_rows(self.rows@, self.rows@.len() as int, Color::Black),
            r.white == count_rows(self.rows@, self.rows@.len() as int, Color::White),
            r.transparent == count_rows(self.rows@, self.rows@.len() as int, Color::Transparent),
    {
        let mut f = Frequencies { black: 0, white: 0, transparent: 0 };
        let mut i: usize = 0;
        while i < self.rows.len()
            invariant
                i <= self.rows@.len(),
                count_rows(self.rows@, self.rows@.len() as int, Color::Black) <= usize::MAX,
                count_rows(self.rows@, self.rows@.len() as int, Color::White) <= usize::MAX,
                count_rows(self.rows@, self.rows@.len() as int, Color::Transparent) <= usize::MAX,
                f.black == count_rows(self.rows@, i as int, Color::Black),
                f.white == count_rows(self.rows@, i as int, Color::White),
                f.transparent == count_rows(self.rows@, i as int, Color::Transparent),
            decreases self.rows@.len() - i,
        {
            let row = &self.rows[i];
            let mut j: usize = 0;
            proof {
                lemma_count_rows_grows(self.rows@, i as int + 1, self.rows@.len() as int, Color::Black);
                lemma_count_rows_grows(self.rows@, i as int + 1, self.rows@.len() as int, Color::White);
                lemma_count_rows_grows(self.rows@, i as int + 1, self.rows@.len() as int, Color::Transparent);
            }
            while j < row.len()
                invariant
                    i < self.rows@.len(),
                    row@ == self.rows@[i as int]@,
                    j <= row@.len(),
                    count_rows(self.rows@, i + 1, Color::Black) <= usize::MAX,
                    count_rows(self.rows@, i + 1, Color::White) <= usize::MAX,
                    count_rows(self.rows@, i + 1, Color::Transparent) <= usize::MAX,
                    f.black == count_rows(self.rows@, i as int, Color::Black) + count_in(row@.subrange(0, j as int), Color::Black),
                    f.white == count_rows(self.rows@, i as int, Color::White) + count_in(row@.subrange(0, j as int), Color::White),
                    f.transparent == count_rows(self.rows@, i as int, Color::Transparent) + count_in(row@.subrange(0, j as int), Color::Transparent),
                decreases row@.len() - j,
            {
                proof {
                    assert(row@.subrange(0, j + 1).drop_last() =~= row@.subrange(0, j as int));
                    lemma_count_in_prefix(row@, j as int + 1, Color::Black);
                    lemma_count_in_prefix(row@, j as int + 1, Color::White);
                    lemma_count_in_prefix(row@, j as int + 1, Color::Transparent);
                }
                match row[j] {
                    Color::Black => f.black = f.black + 1,
                    Color::White => f.white = f.white + 1,
                    Color::Transparent => f.transparent = f.transparent + 1,
                }
                j = j + 1;
            }
            proof {
                assert(row@.subrange(0, j as int) =~= row@);
            }
            i = i + 1;
        }
        f
    }
}

/// A prefix of a row holds no more pixels of a color than the row.
pub proof fn lemma_count_in_prefix(row: Seq<Color>, k: int, color: Color)
    requires
        0 <= k <= row.len(),
    ensures
        count_in(row.subrange(0, k), color) <= count_in(row, color),
    decreases row.len() - k,
{
    if k < row.len() {
        lemma_count_in_prefix(row, k + 1, color);
        assert(row.subrange(0, k + 1).drop_last() =~= row.subrange(0, k));
    } else {
        assert(row.subrange(0, k) =~= row);
    }
}

/// Counting over more rows never gives less.
pub proof fn lemma_count_rows_grows(rows: Seq<Vec<Color>>, k: int, m: int, color: Color)
    requires
        0 <= k <= m,
    ensures
        count_rows(rows, k, color) <= count_rows(rows, m, color),
    decreases m - k,
{
    if k < m {
        lemma_count_rows_grows(rows, k, m - 1, color);
    }
}

/// The decoded image: rows of pixels.
pub struct Image {
    pub rows: Vec<Vec<Color>>,
}

/// The pixel seen through a pixel already in the image: black and white
/// hide what lies behind, a transparent one lets it show.
pub open spec fn overlay(front: Option<Color>, back: Color) -> Color {
    match front {
        None => back,
        Some(Color::Transparent) => back,
        Some(c) => c,
    }
}

impl Image {
    /// An image with no rows yet.
    pub fn new() -> (r: Image)
        ensures
            r.rows@.len() == 0,
    {
        Image { rows: Vec::new() }
    }

    /// Puts a layer behind what the image shows so far: every pixel that is
    /// missing or transparent takes the layer's color.
    pub fn apply(&mut self, layer: &Layer)
        ensures
            final(self).rows@.len() == if old(self).rows@.len() > layer.rows@.len() {
                old(self).rows@.len()
            } else {
                layer.rows@.len()
            },
            forall|i: int| 0 <= i < layer.rows@.len() ==> ({
                let old_row = if i < old(self).rows@.len() { old(self).rows@[i]@ } else { seq![] };
                let new_row = #[trigger] final(self).rows@[i]@;
                let layer_row = layer.rows@[i]@;
                &&& new_row.len() == if old_row.len() > layer_row.len() { old_row.len() } else { layer_row.len() }
                &&& forall|j: int| 0 <= j < layer_row.len() ==> #[trigger] new_row[j] == overlay(
                    if j < old_row.len() { Some(old_row[j]) } else { None },
                    layer_row[j],
                )
                &&& forall|j: int| layer_row.len() <= j < old_row.len() ==> #[trigger] new_row[j] == old_row[j]
            }),
            forall|i: int| layer.rows@.len() <= i < old(self).rows@.len() ==> #[trigger] final(self).rows@[i] == old(self).rows@[i],
    {
        let mut r: usize = 0;
        while r < layer.rows.len()
            invariant
                r <= layer.rows@.len(),
                self.rows@.len() == if old(self).rows@.len() > r { old(self).rows@.len() } else { r as nat },
                forall|i: int| 0 <= i < r ==> ({
                    let old_row = if i < old(self).rows@.len() { old(self).rows@[i]@ } else { seq![] };
                    let new_row = #[trigger] self.rows@[i]@;
                    let layer_row = layer.rows@[i]@;
                    &&& new_row.len() == if old_row.len() > layer_row.len() { old_row.len() } else { layer_row.len() }
                    &&& forall|j: int| 0 <= j < layer_row.len() ==> #[trigger] new_row[j] == overlay(
                        if j < old_row.len() { Some(old_row[j]) } else { None },
                        layer_row[j],
                    )
                    &&& forall|j: int| layer_row.len() <= j < old_row.len() ==> #[trigger] new_row[j] == old_row[j]
                }),
                forall|i: int| r <= i < old(self).rows@.len() ==> #[trigger] self.rows@[i] == old(self).rows@[i],
            decreases layer.rows@.len() - r,
        {
            let layer_row = &layer.rows[r];
            let mut row: Vec<Color> = if r < self.rows.len() { self.rows[r].clone() } else { Vec::new() };
            let ghost old_row = row@;
            proof {
                if r < old(self).rows@.len() {
                    assert(old_row == old(self).rows@[r as int]@);
                } else {
                    assert(old_row =~= seq![]);
                }
            }
            let mut c: usize = 0;
            while c < layer_row.len()
                invariant
                    c <= layer_row@.len(),
                    row@.len() == if old_row.len() > c { old_row.len() } else { c as nat },
                    forall|j: int| 0 <= j < c ==> #[trigger] row@[j] == overlay(
                        if j < old_row.len() { Some(old_row[j]) } else { None },
                        layer_row@[j],
                    ),
                    forall|j: int| c <= j < old_row.len() ==> #[trigger] row@[j] == old_row[j],
                decreases layer_row@.len() - c,
            {
                let color = layer_row[c];
                if c < row.len() {
                    let current = row[c];
                    let new_color = match current {
                        Color::Transparent => color,
                        other => other,
                    };
                    row.set(c, new_color);
                } else {
                    row.push(color);
                }
                c = c + 1;
            }
            if r < self.rows.len() {
                self.rows.set(r, row);
            } else {
                self.rows.push(row);
            }
            r = r + 1;
        }
    }
}

/// Cuts the image data into layers of `tall` rows of `wide` pixels; data
/// past the last whole layer is left out.
pub fn build_layers(wide: usize, tall: usize, image_data: &Vec<Color>) -> (r: Vec<Layer>)
    requires
        wide > 0,
        tall > 0,
        wide * tall <= usize::MAX,
    ensures
        r@.len() == image_data@.len() as int / (wide * tall) as int,
        forall|l: int| 0 <= l < r@.len() ==> (#[trigger] r@[l].rows@).len() == tall,
        forall|l: int, i: int| 0 <= l < r@.len() && 0 <= i < tall ==> (#[trigger] r@[l].rows@[i])@
            == image_data@.subrange(l * (wide * tall) + i * wide, l * (wide * tall) + i * wide + wide),
{
    let layer_size = wide * tall;
    assert(layer_size > 0) by (nonlinear_arith)
        requires
            wide > 0,
            tall > 0,
            layer_size == wide * tall,
    ;
    let total = image_data.len();
    let layer_count = total / layer_size;
    let mut layers: Vec<Layer> = Vec::new();
    let mut l: usize = 0;
    while l < layer_count
        invariant
            layer_size == wide * tall,
            layer_size > 0,
            image_data@.len() <= usize::MAX,
            wide > 0,
            tall > 0,
            layer_count == image_data@.len() as int / layer_size as int,
            l <= layer_count,
            layers@.len() == l,
            forall|k: int| 0 <= k < l ==> (#[trigger] layers@[k].rows@).len() == tall,
            forall|k: int, i: int| 0 <= k < l && 0 <= i < tall ==> (#[trigger] layers@[k].rows@[i])@
                == image_data@.subrange(k * (wide * tall) + i * wide, k * (wide * tall) + i * wide + wide),
        decreases layer_count - l,
    {
        proof {
            assert((l + 1) * layer_size <= image_data@.len()) by (nonlinear_arith)
                requires
                    l < layer_count,
                    layer_count == image_data@.len() as int / layer_size as int,
                    layer_size > 0,
            ;
        }
        let mut rows: Vec<Vec<Color>> = Vec::new();
        let mut i: usize = 0;
        while i < tall
            invariant
                layer_size == wide * tall,
                wide > 0,
                tall > 0,
                l < layer_count,
                (l + 1) * layer_size <= image_data@.len(),
                image_data@.len() <= usize::MAX,
                i <= tall,
                rows@.len() == i,
                forall|k: int| 0 <= k < i ==> #[trigger] rows@[k]@ == image_data@.subrange(l * (wide * tall) + k * wide, l * (wide * tall) + k * wide + wide),
            decreases tall - i,
        {
            proof {
                assert(l * layer_size + i * wide + wide <= (l + 1) * layer_size && 0 <= l * layer_size && 0 <= i
                    * wide) by (nonlinear_arith)
                    requires
                        i < tall,
                        layer_size == wide * tall,
                ;
            }
            let start = l * layer_size + i * wide;
            let row = crate::image::slice_colors(image_data, start, start + wide);
            rows.push(row);
            i = i + 1;
        }
        layers.push(Layer { rows });
        l = l + 1;
    }
    layers
}

/// The pixels of `data` from `start` up to `end`, not included.
fn slice_colors(data: &Vec<Color>, start: usize, end: usize) -> (r: Vec<Color>)
    requires
        start <= end <= data@.len(),
    ensures
        r@ == data@.subrange(start as int, end as int),
{
    let mut r: Vec<Color> = Vec::new();
    let mut i = start;
    while i < end
        invariant
            start <= i <= end <= data@.len(),
            r@ == data@.subrange(start as int, i as int),
        decreases end - i,
    {
        r.push(data[i]);
        proof {
            assert(data@.subrange(start as int, i + 1) =~= data@.subrange(start as int, i as int).push(data@[i as int]));
        }
        i = i + 1;
    }
    r
}

} // verus!
