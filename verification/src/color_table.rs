use vstd::prelude::*;

verus! {

/// An RGB color, one byte per channel.
#[derive(Debug, PartialEq, Eq, Structural, Copy, Clone)]
pub struct Color(pub u8, pub u8, pub u8);

/// Channel `k` (0 = red, 1 = green, 2 = blue) of a color.
pub open spec fn channel(c: Color, k: int) -> u8 {
    if k == 0 {
        c.0
    } else if k == 1 {
        c.1
    } else {
        c.2
    }
}

/// The header bytes of a sequence of colors: three bytes per color, in order.
pub open spec fn colors_to_bytes(colors: Seq<Color>) -> Seq<u8> {
    Seq::new(3 * colors.len(), |k: int| channel(colors[k / 3], k % 3))
}

/// The colors read from header bytes: each complete group of three bytes is
/// one color; trailing bytes that do not fill a group are ignored.
pub open spec fn bytes_to_colors(bytes: Seq<u8>) -> Seq<Color> {
    Seq::new(
        bytes.len() / 3,
        |i: int| Color(bytes[3 * i], bytes[3 * i + 1], bytes[3 * i + 2]),
    )
}

/// Whether `color` occurs among the first 256 entries of `colors`, the ones
/// that a `u8` index can name.
pub open spec fn indexable(colors: Seq<Color>, color: Color) -> bool {
    exists|i: int| 0 <= i < colors.len() && i < 256 && colors[i] == color
}

/// The first position of `color` in `colors`, where it occurs.
pub open spec fn first_position(colors: Seq<Color>, color: Color, i: int) -> bool {
    &&& 0 <= i < colors.len()
    &&& colors[i] == color
    &&& forall|j: int| 0 <= j < i ==> colors[j] != color
}

/// The table after adding `color` when it is not there yet.
pub open spec fn with_color(colors: Seq<Color>, color: Color) -> Seq<Color> {
    if colors.contains(color) {
        colors
    } else {
        colors.push(color)
    }
}

#[verifier::external_type_specification]
#[verifier::external_body]
#[verifier::reject_recursive_types(T)]
pub struct ExRgb<T>(image::Rgb<T>);

/// The `image::Rgb` pixel whose channels are the given bytes.
pub uninterp spec fn rgb_pixel(channels: Seq<u8>) -> image::Rgb<u8>;

/// Builds the `image::Rgb` pixel with the given channels, by its tuple
/// constructor. The pixel is opaque here: its contract only names it as the
/// pixel of these channels.
#[verifier::external_body]
fn rgb_from_channels(channels: [u8; 3]) -> (p: image::Rgb<u8>)
    ensures
        p == rgb_pixel(channels@),
{
    image::Rgb(channels)
}

/// A palette of colors, kept in the order in which they were added.
pub struct ColorTable {
    colors: Vec<Color>,
}

impl View for ColorTable {
    type V = Seq<Color>;

    closed spec fn view(&self) -> Seq<Color> {
        self.colors@
    }
}

pub proof fn lemma_div_mod_3(i: int, j: int)
    requires
        0 <= i,
        0 <= j < 3,
    ensures
        (3 * i + j) / 3 == i,
        (3 * i + j) % 3 == j,
{
    assert((3 * i + j) / 3 == i) by (nonlinear_arith)
        requires
            0 <= i,
            0 <= j < 3,
    ;
    assert((3 * i + j) % 3 == j) by (nonlinear_arith)
        requires
            0 <= i,
            0 <= j < 3,
    ;
}

impl Color {
    /// The color with the given channels.
    pub fn new(r: u8, g: u8, b: u8) -> (c: Color)
        ensures
            c == Color(r, g, b),
    {
        Color(r, g, b)
    }

    /// The channels of the color as bytes: red, green, blue.
    pub fn to_u8(&self) -> (bytes: [u8; 3])
        ensures
            bytes@ == seq![self.0, self.1, self.2],
    {
        [self.0, self.1, self.2]
    }

    /// The color as an `image` pixel with the same channels.
    pub fn to_rgb(&self) -> (p: image::Rgb<u8>)
        ensures
            p == rgb_pixel(seq![self.0, self.1, self.2]),
    {
        let byte_arry = self.to_u8();
        rgb_from_channels(byte_arry)
    }
}

impl ColorTable {
    /// An empty table.
    pub fn new() -> (ct: ColorTable)
        ensures
            ct@ == Seq::<Color>::empty(),
    {
        ColorTable { colors: Vec::new() }
    }

    /// The table read from header bytes, three bytes per color; trailing
    /// bytes that do not fill a color are ignored.
    pub fn from_file_header(bytes: Vec<u8>) -> (ct: ColorTable)
        ensures
            ct@ == bytes_to_colors(bytes@),
    {
        let mut ct = ColorTable::new();
        let len = bytes.len();
        let n = len / 3;
        let mut i: usize = 0;
        while i < n
            invariant
                len == bytes@.len(),
                n == bytes@.len() / 3,
                i <= n,
                ct@ =~= bytes_to_colors(bytes@).take(i as int),
            decreases n - i,
        {
            proof {
                lemma_div_mod_3(i as int, 2);
                assert((i as int) * 3 + 2 < bytes@.len()) by (nonlinear_arith)
                    requires
                        (i as int) < n,
                        n == bytes@.len() / 3,
                ;
            }
            let index = i * 3;
            let c = Color::new(bytes[index], bytes[index + 1], bytes[index + 2]);
            ct.push(c);
            i = i + 1;
        }
        ct
    }

    /// The index of the first entry equal to `new_color`, if any.
    pub fn has(&self, new_color: &Color) -> (res: Option<u8>)
        requires
            self@.len() < 256 || indexable(self@, *new_color),
        ensures
            match res {
                Some(i) => first_position(self@, *new_color, i as int),
                None => !self@.contains(*new_color),
            },
    {
        let mut cnt: u8 = 0;
        let mut i: usize = 0;
        while i < self.colors.len()
            invariant
                cnt as int == i as int,
                i <= self.colors@.len(),
                self.colors@.len() < 256 || indexable(self.colors@, *new_color),
                forall|j: int| 0 <= j < i ==> self.colors@[j] != *new_color,
            decreases self.colors@.len() - i,
        {
            if *new_color == self.colors[i] {
                return Some(cnt);
            }
            if i == 255 {
                // An indexable color sits at an index below 256, so it was found by now.
                assert(false);
            }
            cnt = cnt + 1;
            i = i + 1;
        }
        None
    }

    /// The entry at index `nth`.
    pub fn get(&self, nth: u8) -> (c: Color)
        requires
            (nth as int) < self@.len(),
        ensures
            c == self@[nth as int],
    {
        self.colors[nth as usize]
    }

    /// Appends a color at the end.
    pub fn push(&mut self, new_color: Color)
        ensures
            final(self)@ == old(self)@.push(new_color),
    {
        self.colors.push(new_color);
    }

    /// The index of `new_color` in the table, appending it first when it is
    /// not there yet.
    pub fn push_if_unique(&mut self, new_color: &Color) -> (idx: u8)
        requires
            old(self)@.len() < 256 || indexable(old(self)@, *new_color),
        ensures
            final(self)@ == with_color(old(self)@, *new_color),
            first_position(final(self)@, *new_color, idx as int),
            old(self)@.contains(*new_color) ==> first_position(old(self)@, *new_color, idx as int),
            !old(self)@.contains(*new_color) ==> idx as int == old(self)@.len(),
            old(self)@.no_duplicates() ==> final(self)@.no_duplicates(),
    {
        let is_unique = self.has(new_color);
        match is_unique {
            Some(i) => i,
            None => {
                let len = self.colors.len();
                self.push(*new_color);
                len as u8
            },
        }
    }

    /// The table as header bytes: three bytes per color, in table order.
    pub fn output_file_header(&self) -> (bytes: Vec<u8>)
        ensures
            bytes@ == colors_to_bytes(self@),
    {
        let mut color_vec: Vec<u8> = Vec::new();
        let mut i: usize = 0;
        while i < self.colors.len()
            invariant
                i <= self.colors@.len(),
                color_vec@.len() == 3 * i,
                forall|k: int|
                    0 <= k < color_vec@.len() ==> #[trigger] color_vec@[k] == channel(
                        self.colors@[k / 3],
                        k % 3,
                    ),
            decreases self.colors@.len() - i,
        {
            let c = self.colors[i];
            let ghost before = color_vec@;
            color_vec.push(c.0);
            color_vec.push(c.1);
            color_vec.push(c.2);
            proof {
                lemma_div_mod_3(i as int, 0);
                lemma_div_mod_3(i as int, 1);
                lemma_div_mod_3(i as int, 2);
                assert forall|k: int| 0 <= k < color_vec@.len() implies #[trigger] color_vec@[k]
                    == channel(self.colors@[k / 3], k % 3) by {
                    if k < before.len() {
                        assert(color_vec@[k] == before[k]);
                    }
                }
            }
            i = i + 1;
        }
        assert(color_vec@ =~= colors_to_bytes(self@));
        color_vec
    }
}

/// An index and value pair.
pub struct Data {
    pub index: u8,
    pub value: u8,
}

impl Data {
    /// The pair of the given index and value.
    pub fn new(i: u8, v: u8) -> (d: Data)
        ensures
            d.index == i,
            d.value == v,
    {
        Data { index: i, value: v }
    }
}

/// Writing a table out as header bytes and reading it back gives the same table.
pub proof fn law_header_round_trip(table: Seq<Color>)
    ensures
        bytes_to_colors(colors_to_bytes(table)) == table,
{
    let bytes = colors_to_bytes(table);
    assert(bytes.len() / 3 == table.len()) by {
        lemma_div_mod_3(table.len() as int, 0);
    }
    assert forall|i: int| 0 <= i < table.len() implies #[trigger] bytes_to_colors(bytes)[i]
        == table[i] by {
        lemma_div_mod_3(i, 0);
        lemma_div_mod_3(i, 1);
        lemma_div_mod_3(i, 2);
        assert(3 * i + 2 < 3 * table.len()) by (nonlinear_arith)
            requires
                0 <= i < table.len(),
        ;
    }
    assert(bytes_to_colors(bytes) =~= table);
}

/// Reading a table from header bytes and writing it out again gives back the
/// bytes, up to the last complete group of three.
pub proof fn law_header_bytes_round_trip(bytes: Seq<u8>)
    ensures
        colors_to_bytes(bytes_to_colors(bytes)) == bytes.take(3 * (bytes.len() / 3) as int),
{
    let table = bytes_to_colors(bytes);
    let n = bytes.len() / 3;
    assert(3 * n <= bytes.len()) by (nonlinear_arith)
        requires
            n == bytes.len() / 3,
    ;
    assert forall|k: int| 0 <= k < 3 * n implies #[trigger] colors_to_bytes(table)[k]
        == bytes[k] by {
        let i = k / 3;
        let j = k % 3;
        assert(k == 3 * i + j && 0 <= j < 3 && 0 <= i < n) by (nonlinear_arith)
            requires
                0 <= k < 3 * n,
                i == k / 3,
                j == k % 3,
        ;
    }
    assert(colors_to_bytes(table) =~= bytes.take(3 * n as int));
}

/// Adding the same color twice in a row changes the table only once, and both
/// times names the same index.
pub proof fn law_push_if_unique_idempotent(table: Seq<Color>, color: Color, i: int, j: int)
    requires
        first_position(with_color(table, color), color, i),
        first_position(with_color(with_color(table, color), color), color, j),
    ensures
        with_color(with_color(table, color), color) == with_color(table, color),
        i == j,
{
    let once = with_color(table, color);
    assert(once.contains(color)) by {
        assert(once[i] == color);
    }
    if i < j {
        assert(once[i] == color);
    } else if j < i {
        assert(once[j] == color);
    }
}

} // verus!
