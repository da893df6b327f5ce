//! Grids of tiles: wrapping them around at their edges.
use crate::hexgrid::coord::{hex, hex_distance, HexCoord};
use crate::hexgrid::grid::{lemma_set_elsewhere, Grid};
use crate::hexgrid::layout::{hex_size_facts, lemma_ring_wraps, GridLayout, HexagonalGridLayout, SquareGridLayout};
use vstd::math::abs;
use vstd::std_specs::convert::IntoSpec;
use crate::hexgrid::ring::{coord_before, ring};
use crate::hexgrid::text::str_chars;
use super::error::WFCError;
use vstd::prelude::*;

verus! {

/// The positions of a grid of hexagonal layout keep, in a grid of the same layout, the values
/// that they had, after a value was set at a position outside the grid's layout.
proof fn lemma_inner_kept<T>(
    grid: Grid<HexagonalGridLayout, T>,
    before: Grid<HexagonalGridLayout, T>,
    after: Grid<HexagonalGridLayout, T>,
    position: HexCoord,
    value: T,
)
    requires
        grid.wf(),
        grid.layout.radius >= 1,
        before.wf(),
        before.layout.radius == grid.layout.radius + 1,
        before.layout.can_locate(position),
        position.spec_length() >= grid.layout.radius,
        after.layout == before.layout,
        after.cells() == match before.layout.spec_offset(position) {
            Some(o) => before.cells().update(o, value),
            None => before.cells(),
        },
        forall|k: int|
            0 <= k < grid.layout.spec_size() ==> #[trigger] before.spec_at(grid.layout.coord_at(k))
                == grid.spec_at(grid.layout.coord_at(k)),
    ensures
        forall|k: int|
            0 <= k < grid.layout.spec_size() ==> #[trigger] after.spec_at(grid.layout.coord_at(k))
                == grid.spec_at(grid.layout.coord_at(k)),
{
    assert forall|k: int| 0 <= k < grid.layout.spec_size() implies #[trigger] after.spec_at(
        grid.layout.coord_at(k),
    ) == grid.spec_at(grid.layout.coord_at(k)) by {
        grid.layout.lemma_offset_of_coord(k);
        let c = grid.layout.coord_at(k);
        lemma_set_elsewhere(before, after, position, value, c);
    }
}

/// The positions of the outer ring set so far keep their values after a value was set at
/// another position of the ring.
proof fn lemma_ring_kept<T>(
    grid: Grid<HexagonalGridLayout, T>,
    before: Grid<HexagonalGridLayout, T>,
    after: Grid<HexagonalGridLayout, T>,
    outer: Seq<HexCoord>,
    j: int,
    value: T,
)
    requires
        grid.wf(),
        grid.layout.radius >= 1,
        before.wf(),
        before.layout.radius == grid.layout.radius + 1,
        0 <= j < outer.len(),
        forall|c: HexCoord| outer.contains(c) ==> hex_distance(c, hex(0, 0)) == grid.layout.radius,
        forall|a: int, b: int| 0 <= a < b < outer.len() ==> #[trigger] outer[a] != #[trigger] outer[b],
        after.layout == before.layout,
        after.cells() == match before.layout.spec_offset(outer[j]) {
            Some(o) => before.cells().update(o, value),
            None => before.cells(),
        },
        value == grid.spec_at(grid.layout.spec_wrap(outer[j]))->0,
        grid.spec_at(grid.layout.spec_wrap(outer[j])) is Some,
        forall|m: int| 0 <= m < j ==> #[trigger] before.spec_at(outer[m]) == grid.spec_at(
            grid.layout.spec_wrap(outer[m]),
        ),
    ensures
        forall|m: int| 0 <= m < j + 1 ==> #[trigger] after.spec_at(outer[m]) == grid.spec_at(
            grid.layout.spec_wrap(outer[m]),
        ),
{
    hex_size_facts(before.layout);
    assert(outer.contains(outer[j]));
    before.layout.lemma_coord_of_offset(outer[j]);
    assert forall|m: int| 0 <= m < j + 1 implies #[trigger] after.spec_at(outer[m]) == grid.spec_at(
        grid.layout.spec_wrap(outer[m]),
    ) by {
        let c = outer[m];
        assert(outer.contains(c));
        lemma_set_elsewhere(before, after, outer[j], value, c);
    }
}

/// A grid one ring larger than `grid`: the positions of `grid` keep their values, and each
/// position of the new outermost ring takes the value of the position of `grid` that it wraps
/// around to.
pub fn wrap_grid<Item: Default + Clone + Copy>(grid: Grid<HexagonalGridLayout, Item>) -> (wrapped: Grid<
    HexagonalGridLayout,
    Item,
>)
    requires
        grid.wf(),
        grid.layout.radius >= 1,
        (HexagonalGridLayout { radius: (grid.layout.radius + 1) as i32 }).valid(),
    ensures
        wrapped.wf(),
        wrapped.layout.radius == grid.layout.radius + 1,
        forall|p: HexCoord| p.spec_length() < grid.layout.radius ==> #[trigger] wrapped.spec_at(p) == grid.spec_at(p),
        forall|p: HexCoord| p.spec_length() == grid.layout.radius ==> #[trigger] wrapped.spec_at(p) == grid.spec_at(
            grid.layout.spec_wrap(p),
        ),
        forall|p: HexCoord| p.spec_length() == grid.layout.radius ==> grid.layout.spec_contains(
            #[trigger] grid.layout.spec_wrap(p),
        ),
{
    proof {
        hex_size_facts(grid.layout);
    }
    let layout = HexagonalGridLayout { radius: grid.layout.radius + 1 };
    proof {
        hex_size_facts(layout);
    }
    let mut wrapped: Grid<HexagonalGridLayout, Item> = Grid::new(layout);
    let coords = grid.layout.iter();
    let mut i: usize = 0;
    while i < coords.len()
        invariant
            grid.wf(),
            grid.layout.radius >= 1,
            grid.layout.radius <= 30000,
            layout.radius == grid.layout.radius + 1,
            layout.valid(),
            wrapped.wf(),
            wrapped.layout == layout,
            coords@.len() == grid.layout.spec_size(),
            forall|k: int| 0 <= k < coords@.len() ==> #[trigger] coords@[k] == grid.layout.coord_at(k),
            i <= coords@.len(),
            forall|k: int| 0 <= k < i ==> #[trigger] wrapped.spec_at(grid.layout.coord_at(k)) == grid.spec_at(
                grid.layout.coord_at(k),
            ),
        decreases coords@.len() - i,
    {
        let coord = coords[i];
        proof {
            grid.layout.lemma_offset_of_coord(i as int);
        }
        let value = *grid.index(coord);
        let ghost before = wrapped;
        wrapped.set(coord, value);
        proof {
            layout.lemma_coord_of_offset(coord);
            assert forall|k: int| 0 <= k < i + 1 implies #[trigger] wrapped.spec_at(grid.layout.coord_at(k))
                == grid.spec_at(grid.layout.coord_at(k)) by {
                grid.layout.lemma_offset_of_coord(k);
                let c = grid.layout.coord_at(k);
                lemma_set_elsewhere(before, wrapped, coord, value, c);
            }
        }
        i = i + 1;
    }
    let outer = ring(HexCoord::zero(), grid.layout.radius + 1);
    proof {
        assert forall|a: int, b: int| 0 <= a < b < outer@.len() implies #[trigger] outer@[a]
            != #[trigger] outer@[b] by {
            assert(coord_before(outer@[a], outer@[b]));
        }
    }
    let mut j: usize = 0;
    while j < outer.len()
        invariant
            grid.wf(),
            grid.layout.radius >= 1,
            grid.layout.radius <= 30000,
            layout.radius == grid.layout.radius + 1,
            layout.valid(),
            wrapped.wf(),
            wrapped.layout == layout,
            forall|c: HexCoord| outer@.contains(c) <==> hex_distance(c, hex(0, 0)) == grid.layout.radius,
            forall|a: int, b: int| 0 <= a < b < outer@.len() ==> #[trigger] outer@[a] != #[trigger] outer@[b],
            j <= outer@.len(),
            forall|k: int| 0 <= k < grid.layout.spec_size() ==> #[trigger] wrapped.spec_at(grid.layout.coord_at(k))
                == grid.spec_at(grid.layout.coord_at(k)),
            forall|m: int| 0 <= m < j ==> #[trigger] wrapped.spec_at(outer@[m]) == grid.spec_at(
                grid.layout.spec_wrap(outer@[m]),
            ),
        decreases outer@.len() - j,
    {
        let coord = outer[j];
        proof {
            assert(outer@.contains(coord));
            lemma_ring_wraps(grid.layout, coord);
            grid.layout.lemma_coord_of_offset(grid.layout.spec_wrap(coord));
        }
        let source = grid.layout.wrap(coord);
        let value = *grid.index(source);
        let ghost before = wrapped;
        wrapped.set(coord, value);
        proof {
            lemma_inner_kept(grid, before, wrapped, coord, value);
            lemma_ring_kept(grid, before, wrapped, outer@, j as int, value);
        }
        j = j + 1;
    }
    proof {
        assert forall|p: HexCoord| p.spec_length() < grid.layout.radius implies #[trigger] wrapped.spec_at(p)
            == grid.spec_at(p) by {
            grid.layout.lemma_coord_of_offset(p);
            let o = grid.layout.spec_offset(p)->0;
            assert(grid.layout.coord_at(o) == p);
        }
        assert forall|p: HexCoord| p.spec_length() == grid.layout.radius implies #[trigger] wrapped.spec_at(p)
            == grid.spec_at(grid.layout.spec_wrap(p)) by {
            assert(outer@.contains(p));
            let m = choose|m: int| 0 <= m < outer@.len() && outer@[m] == p;
        }
        assert forall|p: HexCoord| p.spec_length() == grid.layout.radius implies grid.layout.spec_contains(
            #[trigger] grid.layout.spec_wrap(p),
        ) by {
            lemma_ring_wraps(grid.layout, p);
        }
    }
    wrapped
}

/// `String::push`: the text with `c` appended.
#[verifier::external_body]
fn push_char(text: &mut String, c: char)
    ensures
        final(text)@ == old(text)@.push(c),
{
    text.push(c)
}

/// `n` spaces.
pub open spec fn spaces(n: int) -> Seq<char> {
    Seq::new(n as nat, |i: int| ' ')
}

/// The character that `chars`, in the order of the grid's layout, holds for position `p`.
pub open spec fn char_at<L: GridLayout>(layout: L, chars: Seq<char>, p: HexCoord) -> char {
    chars[layout.spec_offset(p)->0]
}

/// The cells of row `r` from column `from` up to column `to`, each a space and its character.
pub open spec fn row_cells<L: GridLayout>(layout: L, chars: Seq<char>, r: int, from: int, to: int) -> Seq<char>
    decreases to - from,
{
    if to <= from {
        Seq::empty()
    } else {
        row_cells(layout, chars, r, from, to - 1) + seq![' ', char_at(layout, chars, hex(to - 1, r))]
    }
}

/// The first column of row `r` of a hexagonal layout of radius `radius`.
pub open spec fn hex_row_start(radius: int, r: int) -> int {
    -radius - (if r < 0 { r } else { 0 }) + 1
}

/// The column after the last of row `r` of a hexagonal layout of radius `radius`.
pub open spec fn hex_row_end(radius: int, r: int) -> int {
    radius - (if r > 0 { r } else { 0 })
}

/// A row of a hexagonal layout as text: a line break, as many spaces as the row is away from
/// the middle row, and its cells.
pub open spec fn hex_row_text(layout: HexagonalGridLayout, chars: Seq<char>, r: int) -> Seq<char> {
    let radius = layout.radius as int;
    seq!['\n'] + spaces(abs(r) as int) + row_cells(layout, chars, r, hex_row_start(radius, r), hex_row_end(radius, r))
}

/// The rows of a hexagonal layout before row `r`.
pub open spec fn hex_rows_text(layout: HexagonalGridLayout, chars: Seq<char>, r: int) -> Seq<char>
    decreases r - (1 - layout.radius),
{
    if r <= 1 - layout.radius {
        Seq::empty()
    } else {
        hex_rows_text(layout, chars, r - 1) + hex_row_text(layout, chars, r - 1)
    }
}

/// A hexagonal grid as text: its rows from the top, then a line break.
pub open spec fn hex_dump_text(layout: HexagonalGridLayout, chars: Seq<char>) -> Seq<char> {
    hex_rows_text(layout, chars, layout.radius as int) + seq!['\n']
}

/// A row of a square layout as text: a line break, a space for odd rows, and its cells.
pub open spec fn square_row_text(layout: SquareGridLayout, chars: Seq<char>, r: int) -> Seq<char> {
    seq!['\n'] + (if r % 2 == 1 { seq![' '] } else { Seq::empty() }) + row_cells(
        layout,
        chars,
        r,
        -(r / 2),
        layout.width - r / 2,
    )
}

/// The rows of a square layout before row `r`.
pub open spec fn square_rows_text(layout: SquareGridLayout, chars: Seq<char>, r: int) -> Seq<char>
    decreases r,
{
    if r <= 0 {
        Seq::empty()
    } else {
        square_rows_text(layout, chars, r - 1) + square_row_text(layout, chars, r - 1)
    }
}

/// A square grid as text: its rows from the top, then a line break.
pub open spec fn square_dump_text(layout: SquareGridLayout, chars: Seq<char>) -> Seq<char> {
    square_rows_text(layout, chars, layout.height as int) + seq!['\n']
}

/// Appends `n` spaces.
fn push_spaces(text: &mut String, n: u32)
    ensures
        final(text)@ == old(text)@ + spaces(n as int),
{
    let mut k: u32 = 0;
    while k < n
        invariant
            k <= n,
            text@ == old(text)@ + spaces(k as int),
        decreases n - k,
    {
        push_char(text, ' ');
        proof {
            assert(old(text)@ + spaces(k + 1) =~= (old(text)@ + spaces(k as int)).push(' '));
        }
        k = k + 1;
    }
}

/// The text of a hexagonal grid of characters: one line per row, each cell a space and its
/// character, rows shifted to form a hexagon.
pub fn dump_hex_chars(grid: &Grid<HexagonalGridLayout, char>) -> (text: String)
    requires
        grid.wf(),
        grid.layout.radius >= 1,
    ensures
        text@ == hex_dump_text(grid.layout, grid.cells()),
{
    let radius = grid.layout.radius;
    proof {
        hex_size_facts(grid.layout);
    }
    let mut text = String::new();
    let mut r: i32 = 1 - radius;
    while r < radius
        invariant
            grid.wf(),
            radius == grid.layout.radius,
            1 <= radius <= 30000,
            1 - radius <= r <= radius,
            text@ == hex_rows_text(grid.layout, grid.cells(), r as int),
        decreases radius - r,
    {
        push_char(&mut text, '\n');
        let indent: u32 = if r < 0 { (-r) as u32 } else { r as u32 };
        push_spaces(&mut text, indent);
        let start: i32 = -radius - (if r < 0 { r } else { 0 }) + 1;
        let end: i32 = radius - (if r > 0 { r } else { 0 });
        let ghost row_start = (text@).len();
        let ghost prefix = text@;
        let mut q: i32 = start;
        while q < end
            invariant
                grid.wf(),
                radius == grid.layout.radius,
                1 <= radius <= 30000,
                1 - radius <= r < radius,
                start == hex_row_start(radius as int, r as int),
                end == hex_row_end(radius as int, r as int),
                start <= q <= end,
                text@ == prefix + row_cells(grid.layout, grid.cells(), r as int, start as int, q as int),
            decreases end - q,
        {
            let coord = HexCoord::new(q, r);
            proof {
                grid.layout.lemma_coord_of_offset(coord);
            }
            let c = *grid.index(coord);
            push_char(&mut text, ' ');
            push_char(&mut text, c);
            proof {
                assert(text@ =~= prefix + row_cells(grid.layout, grid.cells(), r as int, start as int, q + 1));
            }
            q = q + 1;
        }
        proof {
            assert(text@ =~= hex_rows_text(grid.layout, grid.cells(), r + 1));
        }
        r = r + 1;
    }
    push_char(&mut text, '\n');
    text
}

/// The text of a square grid of characters: one line per row, each cell a space and its
/// character, odd rows shifted by a space.
pub fn dump_square_chars(grid: &Grid<SquareGridLayout, char>) -> (text: String)
    requires
        grid.wf(),
    ensures
        text@ == square_dump_text(grid.layout, grid.cells()),
        square_text_laid_out(grid.layout, grid.cells(), text@),
{
    proof {
        lemma_square_dump_laid_out(grid.layout, grid.cells());
    }
    let mut text = String::new();
    let mut r: i32 = 0;
    while r < grid.layout.height
        invariant
            grid.wf(),
            0 <= r <= grid.layout.height,
            text@ == square_rows_text(grid.layout, grid.cells(), r as int),
        decreases grid.layout.height - r,
    {
        push_char(&mut text, '\n');
        if r % 2 == 1 {
            push_char(&mut text, ' ');
        }
        let ghost prefix = text@;
        let start: i32 = -(r / 2);
        let end: i32 = grid.layout.width - r / 2;
        let mut q: i32 = start;
        while q < end
            invariant
                grid.wf(),
                0 <= r < grid.layout.height,
                start == -(r / 2),
                end == grid.layout.width - r / 2,
                start <= q <= end,
                text@ == prefix + row_cells(grid.layout, grid.cells(), r as int, start as int, q as int),
            decreases end - q,
        {
            let coord = HexCoord::new(q, r);
            proof {
                grid.layout.lemma_coord_of_offset(coord);
            }
            let c = *grid.index(coord);
            push_char(&mut text, ' ');
            push_char(&mut text, c);
            proof {
                assert(text@ =~= prefix + row_cells(grid.layout, grid.cells(), r as int, start as int, q + 1));
            }
            q = q + 1;
        }
        proof {
            assert(text@ =~= square_rows_text(grid.layout, grid.cells(), r + 1));
        }
        r = r + 1;
    }
    push_char(&mut text, '\n');
    text
}

/// The characters that `dump_item` gives for the values of a grid, as a grid of the same layout.
fn chars_of<L: GridLayout, Item, F: Fn(&Item) -> char>(grid: &Grid<L, Item>, dump_item: F) -> (chars: Grid<L, char>)
    requires
        grid.wf(),
        forall|i: int| 0 <= i < grid.cells().len() ==> call_requires(dump_item, (&grid.cells()[i],)),
    ensures
        chars.wf(),
        chars.layout == grid.layout,
        chars.cells().len() == grid.cells().len(),
        forall|i: int| 0 <= i < chars.cells().len() ==> call_ensures(dump_item, (&grid.cells()[i],), #[trigger] chars.cells()[i]),
{
    let values = grid.iter_data();
    let mut data: Vec<char> = Vec::new();
    let mut i: usize = 0;
    while i < values.len()
        invariant
            values@ == grid.cells(),
            forall|k: int| 0 <= k < grid.cells().len() ==> call_requires(dump_item, (&grid.cells()[k],)),
            i <= values@.len(),
            data@.len() == i,
            forall|k: int| 0 <= k < i ==> call_ensures(dump_item, (&grid.cells()[k],), #[trigger] data@[k]),
        decreases values@.len() - i,
    {
        let c = dump_item(&values[i]);
        data.push(c);
        i = i + 1;
    }
    Grid::with_data(grid.layout, data)
}

/// Writing a grid as text, each value as the character that a function gives for it.
pub trait DumpGridWith {
    type Item;

    /// The values of the grid, in the order of its layout.
    spec fn item_values(&self) -> Seq<Self::Item>;

    /// The grid is well formed and has a shape that can be written.
    spec fn dumpable(&self) -> bool;

    /// The text of the grid when the value at index `i` is written as `chars[i]`.
    spec fn text_with(&self, chars: Seq<char>) -> Seq<char>;

    /// The text of the grid, each value written as what `dump_item` gives for it.
    fn dump_with<F: Fn(&Self::Item) -> char>(&self, dump_item: F) -> (text: String)
        requires
            self.dumpable(),
            forall|i: int| 0 <= i < self.item_values().len() ==> call_requires(dump_item, (&self.item_values()[i],)),
        ensures
            exists|chars: Seq<char>| {
                &&& chars.len() == self.item_values().len()
                &&& forall|i: int| 0 <= i < chars.len() ==> call_ensures(dump_item, (&self.item_values()[i],), #[trigger] chars[i])
                &&& text@ == self.text_with(chars)
            };
}

impl<Item> DumpGridWith for Grid<HexagonalGridLayout, Item> {
    type Item = Item;

    open spec fn item_values(&self) -> Seq<Item> {
        self.cells()
    }

    open spec fn dumpable(&self) -> bool {
        self.wf() && self.layout.radius >= 1
    }

    open spec fn text_with(&self, chars: Seq<char>) -> Seq<char> {
        hex_dump_text(self.layout, chars)
    }

    fn dump_with<F: Fn(&Item) -> char>(&self, dump_item: F) -> (text: String) {
        assert forall|i: int| 0 <= i < self.cells().len() implies call_requires(dump_item, (&self.cells()[i],)) by {
            assert(call_requires(dump_item, (&self.item_values()[i],)));
        }
        let chars = chars_of(self, dump_item);
        let text = dump_hex_chars(&chars);
        assert(chars.cells().len() == self.item_values().len());
        text
    }
}

impl<Item> DumpGridWith for Grid<SquareGridLayout, Item> {
    type Item = Item;

    open spec fn item_values(&self) -> Seq<Item> {
        self.cells()
    }

    open spec fn dumpable(&self) -> bool {
        self.wf()
    }

    open spec fn text_with(&self, chars: Seq<char>) -> Seq<char> {
        square_dump_text(self.layout, chars)
    }

    fn dump_with<F: Fn(&Item) -> char>(&self, dump_item: F) -> (text: String) {
        assert forall|i: int| 0 <= i < self.cells().len() implies call_requires(dump_item, (&self.cells()[i],)) by {
            assert(call_requires(dump_item, (&self.item_values()[i],)));
        }
        let chars = chars_of(self, dump_item);
        let text = dump_square_chars(&chars);
        assert(chars.cells().len() == self.item_values().len());
        text
    }
}

/// The character that a value converts to.
fn item_char<Item: Into<char> + Copy>(item: &Item) -> (c: char)
    ensures
        <Item as IntoSpec<char>>::obeys_into_spec() ==> c == (*item).into_spec(),
{
    (*item).into()
}

/// Writing a grid as text, each value as the character it converts to.
pub trait DumpGrid {
    type Item;

    /// The values of the grid, in the order of its layout.
    spec fn dump_values(&self) -> Seq<Self::Item>;

    /// The grid is well formed and has a shape that can be written.
    spec fn can_dump(&self) -> bool;

    /// The text of the grid when the value at index `i` is written as `chars[i]`.
    spec fn dump_text(&self, chars: Seq<char>) -> Seq<char>;

    /// The character that a value converts to.
    spec fn char_of(&self, item: Self::Item) -> char;

    /// The conversion of values to characters is the one that `char_of` states.
    spec fn converts(&self) -> bool;

    /// The text of the grid, each value written as the character it converts to.
    fn dump(&self) -> (text: String)
        requires
            self.can_dump(),
        ensures
            exists|chars: Seq<char>| {
                &&& chars.len() == self.dump_values().len()
                &&& self.converts() ==> forall|i: int| 0 <= i < chars.len() ==> #[trigger] chars[i] == self.char_of(
                    self.dump_values()[i],
                )
                &&& text@ == self.dump_text(chars)
            };
}

impl<Item: Into<char> + Copy, T: DumpGridWith<Item = Item>> DumpGrid for T {
    type Item = Item;

    open spec fn dump_values(&self) -> Seq<Item> {
        self.item_values()
    }

    open spec fn can_dump(&self) -> bool {
        self.dumpable()
    }

    open spec fn dump_text(&self, chars: Seq<char>) -> Seq<char> {
        self.text_with(chars)
    }

    open spec fn char_of(&self, item: Item) -> char {
        item.into_spec()
    }

    open spec fn converts(&self) -> bool {
        <Item as IntoSpec<char>>::obeys_into_spec()
    }

    fn dump(&self) -> (text: String) {
        self.dump_with(item_char::<Item>)
    }
}

/// The characters of each line.
pub open spec fn line_texts(lines: Seq<String>) -> Seq<Seq<char>> {
    lines.map_values(|s: String| s@)
}

/// The radius of the hexagonal grid written as `line_count` lines.
pub open spec fn loaded_radius(line_count: int) -> int {
    line_count / 2 + 1
}

/// The index of the first cell character in line `lineno` of a hexagonal grid of radius
/// `radius`: past the indentation and the space before the cell.
pub open spec fn first_cell_index(radius: int, lineno: int) -> int {
    abs(lineno + 1 - radius) as int + 1
}

/// The number of cells in a line of `len` characters whose first cell character is at `first`:
/// every other character from there on.
pub open spec fn line_cell_count(len: int, first: int) -> int {
    if len > first { (len - first + 1) / 2 } else { 0 }
}

/// The position of cell `k` of line `lineno` of a hexagonal grid of radius `radius`.
pub open spec fn load_coord(radius: int, lineno: int, k: int) -> HexCoord {
    let r = lineno - radius + 1;
    hex(-radius - (if r < 0 { r } else { 0 }) + k + 1, r)
}

/// The character of cell `k` of line `lineno`.
pub open spec fn cell_char(lines: Seq<Seq<char>>, lineno: int, k: int) -> char {
    lines[lineno][first_cell_index(loaded_radius(lines.len() as int), lineno) + 2 * k]
}

/// The cells of the lines, as pairs of line number and cell number.
pub open spec fn is_cell(lines: Seq<Seq<char>>, lineno: int, k: int) -> bool {
    &&& 0 <= lineno < lines.len()
    &&& 0 <= k < line_cell_count(
        lines[lineno].len() as int,
        first_cell_index(loaded_radius(lines.len() as int), lineno),
    )
}

/// The lines are few and short enough that the grid they describe has a valid layout, its
/// number of positions fitting in an `i32`, and the positions of their cells fit in an `i32`.
pub open spec fn loadable(lines: Seq<Seq<char>>) -> bool {
    &&& 3 * ((loaded_radius(lines.len() as int) - 1) * loaded_radius(lines.len() as int)) + 1 <= i32::MAX
    &&& forall|l: int| 0 <= l < lines.len() ==> #[trigger] lines[l].len() <= i32::MAX
}

/// The characters of each line.
fn line_chars(lines: &Vec<String>) -> (chars: Vec<Vec<char>>)
    ensures
        chars@.len() == lines@.len(),
        forall|l: int| 0 <= l < lines@.len() ==> (#[trigger] chars@[l])@ == lines@[l]@,
{
    let mut chars: Vec<Vec<char>> = Vec::new();
    let mut l: usize = 0;
    while l < lines.len()
        invariant
            l <= lines@.len(),
            chars@.len() == l,
            forall|k: int| 0 <= k < l ==> (#[trigger] chars@[k])@ == lines@[k]@,
        decreases lines@.len() - l,
    {
        chars.push(str_chars(lines[l].as_str()));
        l = l + 1;
    }
    chars
}

/// `grid` is the hexagonal grid that `lines` describe, the value of each cell being one that
/// `load_item` can give for its character; positions without a cell are left as they were made.
pub open spec fn hex_read_from<Item, F: Fn(char) -> Result<Item, E>, E>(
    grid: Grid<HexagonalGridLayout, Item>,
    lines: Seq<Seq<char>>,
    load_item: F,
) -> bool {
    &&& grid.wf()
    &&& grid.layout.radius == loaded_radius(lines.len() as int)
    &&& cells_loaded(grid, lines, load_item, lines.len() as int, 0)
}

/// `load_item` can fail on the character of some cell of `lines`.
pub open spec fn some_cell_fails<Item, F: Fn(char) -> Result<Item, E>, E>(lines: Seq<Seq<char>>, load_item: F) -> bool {
    exists|l: int, k: int, e: E| is_cell(lines, l, k) && call_ensures(load_item, (cell_char(lines, l, k),), Err::<Item, E>(e))
}

/// Reading a grid from lines of text, each character of a cell read as a value by a function.
pub trait LoadGridWith: Sized {
    type Error;
    type Item;

    /// The lines can be read as a grid of a valid layout.
    spec fn readable(lines: Seq<Seq<char>>) -> bool;

    /// The grid that the lines describe, or the error of a cell whose character `load_item`
    /// fails on.
    fn load_with<F: Fn(char) -> Result<Self::Item, E>, E>(lines: &Vec<String>, load_item: F) -> (res: Result<
        Self,
        Self::Error,
    >)
        requires
            Self::readable(line_texts(lines@)),
            forall|c: char| call_requires(load_item, (c,));
}

impl<Item: Clone + Default> LoadGridWith for Grid<HexagonalGridLayout, Item> {
    type Error = WFCError;
    type Item = Item;

    open spec fn readable(lines: Seq<Seq<char>>) -> bool {
        loadable(lines)
    }

    fn load_with<F: Fn(char) -> Result<Item, E>, E>(lines: &Vec<String>, load_item: F) -> (res: Result<Self, WFCError>)
        ensures
            match res {
                Ok(grid) => hex_read_from(grid, line_texts(lines@), load_item) && exists|d: Item| #[trigger] call_ensures(
                    Item::default,
                    (),
                    d,
                ) && rest_filled(grid, line_texts(lines@), lines@.len() as int, 0, d),
                Err(e) => e is CellParseError && some_cell_fails(line_texts(lines@), load_item),
            },
    {
        load_hex_grid(lines, load_item)
    }
}

/// The hexagonal grid that the lines describe, or the error of a cell whose character
/// `load_item` fails on: line `l` holds the row `l - radius + 1`, indented by its distance from
/// the middle row, each cell a space and its character; the radius is half the number of lines,
/// plus one.
pub fn load_hex_grid<Item: Clone + Default, F: Fn(char) -> Result<Item, E>, E>(lines: &Vec<String>, load_item: F) -> (res: Result<
    Grid<HexagonalGridLayout, Item>,
    WFCError,
>)
    requires
        loadable(line_texts(lines@)),
        forall|c: char| call_requires(load_item, (c,)),
    ensures
        res matches Ok(grid) ==> hex_read_from(grid, line_texts(lines@), load_item),
        res matches Ok(grid) ==> exists|d: Item| #[trigger] call_ensures(Item::default, (), d) && rest_filled(
            grid,
            line_texts(lines@),
            lines@.len() as int,
            0,
            d,
        ),
        res is Err ==> res->Err_0 is CellParseError,
        res is Err ==> some_cell_fails(line_texts(lines@), load_item),
    {
        let ghost text = line_texts(lines@);
        let chars = line_chars(lines);
        let n = chars.len();
        assert(n / 2 + 1 <= 26755) by (nonlinear_arith)
            requires
                3 * ((n / 2 + 1 - 1) * (n / 2 + 1)) + 1 <= i32::MAX,
        {
            if n / 2 + 1 > 26755 {
                assert((n / 2 + 1 - 1) * (n / 2 + 1) >= 26755 * 26756);
            }
        }
        let radius: i32 = (n / 2 + 1) as i32;
        let layout = HexagonalGridLayout { radius };
        assert(3 * ((radius - 1) * radius) + 1 <= i32::MAX);
        let mut grid: Grid<HexagonalGridLayout, Item> = Grid::new(layout);
        let ghost fill = choose|d: Item| #[trigger] call_ensures(Item::default, (), d) && forall|i: int|
            0 <= i < grid.cells().len() ==> cloned(d, #[trigger] grid.cells()[i]);
        proof {
            assert forall|p: HexCoord| #![trigger grid.spec_at(p)] grid.layout.can_locate(p) && !loaded_before(
                text,
                grid.layout.radius as int,
                0,
                0,
                p,
            ) implies match grid.spec_at(p) {
                Some(v) => cloned(fill, v),
                None => true,
            } by {
                if let Some(o) = grid.layout.spec_offset(p) {
                    if 0 <= o < grid.cells().len() {
                        assert(cloned(fill, grid.cells()[o]));
                    }
                }
            }
        }
        let mut l: usize = 0;
        while l < n
            invariant
                text == line_texts(lines@),
                n == text.len(),
                n == chars@.len(),
                forall|j: int| 0 <= j < n ==> (#[trigger] chars@[j])@ == text[j],
                loadable(text),
                radius == loaded_radius(n as int),
                1 <= radius <= 26755,
                layout.radius == radius,
                layout.valid(),
                grid.wf(),
                grid.layout == layout,
                forall|c: char| call_requires(load_item, (c,)),
                l <= n,
                cells_loaded(grid, text, load_item, l as int, 0),
                call_ensures(Item::default, (), fill),
                rest_filled(grid, text, l as int, 0, fill),
            decreases n - l,
        {
            let line = &chars[l];
            assert(line@ == text[l as int]);
            let len = line.len();
            let lineno = l as i32;
            let first: usize = if lineno + 1 - radius < 0 {
                (radius - lineno - 1) as usize + 1
            } else {
                (lineno + 1 - radius) as usize + 1
            };
            let count: usize = if len > first { (len - first + 1) / 2 } else { 0 };
            let r: i32 = lineno - radius + 1;
            let mut k: usize = 0;
            while k < count
                invariant
                    text == line_texts(lines@),
                    n == text.len(),
                    loadable(text),
                    radius == loaded_radius(n as int),
                    1 <= radius <= 26755,
                    layout.radius == radius,
                    layout.valid(),
                    grid.wf(),
                    grid.layout == layout,
                    forall|c: char| call_requires(load_item, (c,)),
                    l < n,
                    line@ == text[l as int],
                    len == line@.len(),
                    len <= i32::MAX,
                    first == first_cell_index(radius as int, l as int),
                    count == line_cell_count(len as int, first as int),
                    r == l - radius + 1,
                    k <= count,
                    cells_loaded(grid, text, load_item, l as int, k as int),
                    rest_filled(grid, text, l as int, k as int, fill),
                decreases count - k,
            {
                let c = line[first + 2 * k];
                let q: i32 = -radius - (if r < 0 { r } else { 0 }) + (k as i32) + 1;
                let coord = HexCoord::new(q, r);
                proof {
                    assert(coord == load_coord(radius as int, l as int, k as int));
                    assert(is_cell(text, l as int, k as int));
                    assert(cell_char(text, l as int, k as int) == c);
                }
                match load_item(c) {
                    Ok(value) => {
                        let ghost before = grid;
                        grid.set(coord, value);
                        proof {
                            lemma_load_step(before, grid, text, load_item, l as int, k as int, value);
                            lemma_fill_step(before, grid, text, l as int, k as int, value, fill);
                        }
                    },
                    Err(err) => {
                        proof {
                            assert(is_cell(text, l as int, k as int) && call_ensures(
                                load_item,
                                (cell_char(text, l as int, k as int),),
                                Err::<Item, E>(err),
                            ));
                            assert(some_cell_fails(text, load_item));
                        }
                        return Err(WFCError::CellParseError);
                    },
                }
                k = k + 1;
            }
            proof {
                lemma_next_line(grid, text, load_item, l as int, k as int);
                assert forall|p: HexCoord| #![trigger grid.spec_at(p)] grid.layout.can_locate(p) && !loaded_before(
                    text,
                    grid.layout.radius as int,
                    l + 1,
                    0,
                    p,
                ) implies match grid.spec_at(p) {
                    Some(v) => cloned(fill, v),
                    None => true,
                } by {
                    if loaded_before(text, grid.layout.radius as int, l as int, k as int, p) {
                        let (l2, k2) = choose|l2: int, k2: int| is_cell(text, l2, k2) && (l2 < l || (l2 == l && k2 < k))
                            && #[trigger] load_coord(grid.layout.radius as int, l2, k2) == p;
                        assert(loaded_before(text, grid.layout.radius as int, l + 1, 0, p));
                    }
                }
            }
            l = l + 1;
        }
        Ok(grid)
}

/// The cells before cell `k` of line `lineno` were read: the value at each position is one that
/// `load_item` gives for the cell's character.
pub open spec fn cells_loaded<Item, F: Fn(char) -> Result<Item, E>, E>(
    grid: Grid<HexagonalGridLayout, Item>,
    lines: Seq<Seq<char>>,
    load_item: F,
    lineno: int,
    k: int,
) -> bool {
    forall|l2: int, k2: int| #![trigger load_coord(grid.layout.radius as int, l2, k2)] is_cell(lines, l2, k2) && (l2 < lineno || (
        l2 == lineno && k2 < k)) ==> exists|v: Item| {
        &&& call_ensures(load_item, (cell_char(lines, l2, k2),), Ok::<Item, E>(v))
        &&& grid.layout.spec_contains(load_coord(grid.layout.radius as int, l2, k2)) ==> grid.spec_at(
            load_coord(grid.layout.radius as int, l2, k2),
        ) == Some(v)
    }
}

/// A cell before cell `k` of line `lineno` stands at `p`.
pub open spec fn loaded_before(lines: Seq<Seq<char>>, radius: int, lineno: int, k: int, p: HexCoord) -> bool {
    exists|l2: int, k2: int| is_cell(lines, l2, k2) && (l2 < lineno || (l2 == lineno && k2 < k)) && #[trigger] load_coord(
        radius,
        l2,
        k2,
    ) == p
}

/// The positions of `grid` at which no cell before cell `k` of line `lineno` stands hold clones
/// of `fill`.
pub open spec fn rest_filled<Item: Clone>(
    grid: Grid<HexagonalGridLayout, Item>,
    lines: Seq<Seq<char>>,
    lineno: int,
    k: int,
    fill: Item,
) -> bool {
    forall|p: HexCoord| #![trigger grid.spec_at(p)] grid.layout.can_locate(p) && !loaded_before(
        lines,
        grid.layout.radius as int,
        lineno,
        k,
        p,
    ) ==> match grid.spec_at(p) {
        Some(v) => cloned(fill, v),
        None => true,
    }
}

/// When all cells of line `lineno` were read, the next line starts.
#[verifier::spinoff_prover]
proof fn lemma_next_line<Item, F: Fn(char) -> Result<Item, E>, E>(
    grid: Grid<HexagonalGridLayout, Item>,
    lines: Seq<Seq<char>>,
    load_item: F,
    lineno: int,
    k: int,
)
    requires
        0 <= lineno < lines.len(),
        k == line_cell_count(lines[lineno].len() as int, first_cell_index(loaded_radius(lines.len() as int), lineno)),
        cells_loaded(grid, lines, load_item, lineno, k),
    ensures
        cells_loaded(grid, lines, load_item, lineno + 1, 0),
{
    assert forall|l2: int, k2: int| #![trigger load_coord(grid.layout.radius as int, l2, k2)] is_cell(lines, l2, k2) && (
        l2 < lineno + 1 || (l2 == lineno + 1 && k2 < 0)) implies exists|v: Item| {
        &&& call_ensures(load_item, (cell_char(lines, l2, k2),), Ok::<Item, E>(v))
        &&& grid.layout.spec_contains(load_coord(grid.layout.radius as int, l2, k2)) ==> grid.spec_at(
            load_coord(grid.layout.radius as int, l2, k2),
        ) == Some(v)
    } by {
        assert(is_cell(lines, l2, k2) && (l2 < lineno || (l2 == lineno && k2 < k)));
        let p = load_coord(grid.layout.radius as int, l2, k2);
        assert(exists|v: Item| {
            &&& call_ensures(load_item, (cell_char(lines, l2, k2),), Ok::<Item, E>(v))
            &&& grid.layout.spec_contains(p) ==> grid.spec_at(p) == Some(v)
        });
        let v = choose|v: Item| {
            &&& call_ensures(load_item, (cell_char(lines, l2, k2),), Ok::<Item, E>(v))
            &&& grid.layout.spec_contains(p) ==> grid.spec_at(p) == Some(v)
        };
        assert(call_ensures(load_item, (cell_char(lines, l2, k2),), Ok::<Item, E>(v)));
        assert(grid.layout.spec_contains(p) ==> grid.spec_at(p) == Some(v));
    }
}

/// Reading cell `k` of line `lineno` as `value` keeps the cells read before it, and reads it.
proof fn lemma_load_step<Item, F: Fn(char) -> Result<Item, E>, E>(
    before: Grid<HexagonalGridLayout, Item>,
    after: Grid<HexagonalGridLayout, Item>,
    lines: Seq<Seq<char>>,
    load_item: F,
    lineno: int,
    k: int,
    value: Item,
)
    requires
        before.wf(),
        before.layout.radius == loaded_radius(lines.len() as int),
        1 <= before.layout.radius <= 26755,
        loadable(lines),
        is_cell(lines, lineno, k),
        call_ensures(load_item, (cell_char(lines, lineno, k),), Ok::<Item, E>(value)),
        cells_loaded(before, lines, load_item, lineno, k),
        after.layout == before.layout,
        after.cells() == match before.layout.spec_offset(load_coord(before.layout.radius as int, lineno, k)) {
            Some(o) => before.cells().update(o, value),
            None => before.cells(),
        },
    ensures
        after.wf(),
        cells_loaded(after, lines, load_item, lineno, k + 1),
{
    let radius = before.layout.radius as int;
    let coord = load_coord(radius, lineno, k);
    assert forall|l2: int, k2: int| #![trigger load_coord(after.layout.radius as int, l2, k2)] is_cell(lines, l2, k2) && (
        l2 < lineno || (l2 == lineno && k2 < k + 1)) implies exists|v: Item| {
        &&& call_ensures(load_item, (cell_char(lines, l2, k2),), Ok::<Item, E>(v))
        &&& after.layout.spec_contains(load_coord(after.layout.radius as int, l2, k2)) ==> after.spec_at(
            load_coord(after.layout.radius as int, l2, k2),
        ) == Some(v)
    } by {
        let p = load_coord(radius, l2, k2);
        assert(lines[l2].len() <= i32::MAX);
        lemma_set_elsewhere(before, after, coord, value, p);
        if l2 == lineno && k2 == k {
            before.layout.lemma_coord_of_offset(p);
        } else {
            assert(p != coord);
            assert(load_coord(before.layout.radius as int, l2, k2) == p);
        }
    }
}

/// A row of a hexagonal layout as a line of text: as many spaces as the row is away from the
/// middle row, and its cells; the text of a dumped grid holds it after a line break.
pub open spec fn hex_row_line(layout: HexagonalGridLayout, chars: Seq<char>, r: int) -> Seq<char> {
    let radius = layout.radius as int;
    spaces(abs(r) as int) + row_cells(layout, chars, r, hex_row_start(radius, r), hex_row_end(radius, r))
}

/// The cells of a row, each a space and its character.
proof fn lemma_row_cells<L: GridLayout>(layout: L, chars: Seq<char>, r: int, from: int, to: int)
    requires
        from <= to,
    ensures
        row_cells(layout, chars, r, from, to).len() == 2 * (to - from),
        forall|i: int| 0 <= i < 2 * (to - from) ==> #[trigger] row_cells(layout, chars, r, from, to)[i] == if i % 2
            == 0 {
            ' '
        } else {
            char_at(layout, chars, hex(from + i / 2, r))
        },
    decreases to - from,
{
    if to > from {
        lemma_row_cells(layout, chars, r, from, to - 1);
        let prefix = row_cells(layout, chars, r, from, to - 1);
        let cells = row_cells(layout, chars, r, from, to);
        assert(cells == prefix + seq![' ', char_at(layout, chars, hex(to - 1, r))]);
        assert forall|i: int| 0 <= i < 2 * (to - from) implies #[trigger] cells[i] == if i % 2 == 0 {
            ' '
        } else {
            char_at(layout, chars, hex(from + i / 2, r))
        } by {
            if i < prefix.len() {
                assert(cells[i] == prefix[i]);
            } else {
                assert(i == 2 * (to - 1 - from) || i == 2 * (to - 1 - from) + 1);
            }
        }
    }
}

/// Where row `r` of the text of a square grid of width `width` begins: every row before it takes
/// a line break, an extra space if it is odd, and a space and a character for each cell.
pub open spec fn square_row_start(width: int, r: int) -> int {
    r * (1 + 2 * width) + r / 2
}

/// `text` lays out a square grid whose characters, in the order of its layout, are `chars`: each
/// row starts with a line break, odd rows are indented by one space so that rows `r` and `r + 2`
/// line up, each cell is a space and its character, cell `k` of row `r` standing at column
/// `k - r / 2`, and a line break ends the text.
pub open spec fn square_text_laid_out(layout: SquareGridLayout, chars: Seq<char>, text: Seq<char>) -> bool {
    let w = layout.width as int;
    let h = layout.height as int;
    &&& text.len() == square_row_start(w, h) + 1
    &&& text[text.len() - 1] == '\n'
    &&& forall|r: int| 0 <= r < h ==> text[#[trigger] square_row_start(w, r)] == '\n'
    &&& forall|r: int| 0 <= r < h && r % 2 == 1 ==> text[#[trigger] square_row_start(w, r) + 1] == ' '
    &&& forall|r: int, k: int| 0 <= r < h && 0 <= k < w ==> {
        &&& text[#[trigger] (square_row_start(w, r) + 1 + r % 2 + 2 * k)] == ' '
        &&& text[square_row_start(w, r) + 2 + r % 2 + 2 * k] == char_at(layout, chars, hex(k - r / 2, r))
    }
}

/// Row `r` of the text of a square grid, with all its cells, comes before row `h` starts.
proof fn lemma_row_start_bounds(w: int, r: int, h: int)
    requires
        0 <= r < h,
        w >= 0,
    ensures
        0 <= square_row_start(w, r),
        square_row_start(w, r) + 1 + r % 2 + 2 * w <= square_row_start(w, h),
{
    assert(0 <= r * (1 + 2 * w)) by (nonlinear_arith)
        requires
            r >= 0,
            w >= 0,
    ;
    assert((r + 1) * (1 + 2 * w) <= h * (1 + 2 * w)) by (nonlinear_arith)
        requires
            r + 1 <= h,
            w >= 0,
    ;
    assert((r + 1) * (1 + 2 * w) == r * (1 + 2 * w) + 1 + 2 * w) by (nonlinear_arith);
}

/// The first `n` rows of a square grid's text are laid out as `square_text_laid_out` says.
proof fn lemma_square_rows(layout: SquareGridLayout, chars: Seq<char>, n: int)
    requires
        layout.width >= 0,
        0 <= n <= layout.height,
    ensures
        square_rows_text(layout, chars, n).len() == square_row_start(layout.width as int, n),
        forall|r: int| 0 <= r < n ==> square_rows_text(layout, chars, n)[#[trigger] square_row_start(
            layout.width as int,
            r,
        )] == '\n',
        forall|r: int| 0 <= r < n && r % 2 == 1 ==> square_rows_text(layout, chars, n)[#[trigger] square_row_start(
            layout.width as int,
            r,
        ) + 1] == ' ',
        forall|r: int, k: int| 0 <= r < n && 0 <= k < layout.width ==> {
            &&& square_rows_text(layout, chars, n)[#[trigger] (square_row_start(layout.width as int, r) + 1 + r % 2 + 2
                * k)] == ' '
            &&& square_rows_text(layout, chars, n)[square_row_start(layout.width as int, r) + 2 + r % 2 + 2 * k]
                == char_at(layout, chars, hex(k - r / 2, r))
        },
    decreases n,
{
    let w = layout.width as int;
    if n > 0 {
        let m = n - 1;
        lemma_square_rows(layout, chars, m);
        let prefix = square_rows_text(layout, chars, m);
        let row = square_row_text(layout, chars, m);
        let from = -(m / 2);
        lemma_row_cells(layout, chars, m, from, w + from);
        let cells = row_cells(layout, chars, m, from, w + from);
        let ind: int = if m % 2 == 1 { 1 } else { 0 };
        assert(m % 2 == ind);
        assert(row.len() == 1 + ind + 2 * w);
        assert(square_row_start(w, n) == square_row_start(w, m) + 1 + ind + 2 * w) by (nonlinear_arith)
            requires
                n == m + 1,
                0 <= m,
                m % 2 == ind,
        {
            assert(n * (1 + 2 * w) == m * (1 + 2 * w) + 1 + 2 * w) by (nonlinear_arith)
                requires
                    n == m + 1,
            ;
        }
        let text = square_rows_text(layout, chars, n);
        assert(text == prefix + row);
        let st = square_row_start(w, m);
        assert(0 <= st) by (nonlinear_arith)
            requires
                st == m * (1 + 2 * w) + m / 2,
                m >= 0,
                w >= 0,
        ;
        assert forall|r: int| 0 <= r < n implies text[#[trigger] square_row_start(w, r)] == '\n' by {
            if r < m {
                assert(square_row_start(w, r) < st) by (nonlinear_arith)
                    requires
                        0 <= r < m,
                        w >= 0,
                        st == m * (1 + 2 * w) + m / 2,
                {
                    assert(r * (1 + 2 * w) <= (m - 1) * (1 + 2 * w)) by (nonlinear_arith)
                        requires
                            r <= m - 1,
                            w >= 0,
                    ;
                }
                assert(0 <= square_row_start(w, r)) by (nonlinear_arith)
                    requires
                        r >= 0,
                        w >= 0,
                ;
            }
        }
        assert forall|r: int| 0 <= r < n && r % 2 == 1 implies text[#[trigger] square_row_start(w, r) + 1] == ' ' by {
            if r < m {
                assert(square_row_start(w, r) + 1 < st) by (nonlinear_arith)
                    requires
                        0 <= r < m,
                        w >= 0,
                        st == m * (1 + 2 * w) + m / 2,
                        r % 2 == 1,
                {
                    assert(r * (1 + 2 * w) <= (m - 1) * (1 + 2 * w)) by (nonlinear_arith)
                        requires
                            r <= m - 1,
                            w >= 0,
                    ;
                }
                assert(0 <= square_row_start(w, r)) by (nonlinear_arith)
                    requires
                        r >= 0,
                        w >= 0,
                ;
            }
        }
        assert forall|r: int, k: int| 0 <= r < n && 0 <= k < w implies {
            &&& text[#[trigger] (square_row_start(w, r) + 1 + r % 2 + 2 * k)] == ' '
            &&& text[square_row_start(w, r) + 2 + r % 2 + 2 * k] == char_at(layout, chars, hex(k - r / 2, r))
        } by {
            if r < m {
                assert(square_row_start(w, r) + 2 + r % 2 + 2 * k < st) by (nonlinear_arith)
                    requires
                        0 <= r < m,
                        0 <= k < w,
                        st == m * (1 + 2 * w) + m / 2,
                {
                    assert(r * (1 + 2 * w) <= (m - 1) * (1 + 2 * w)) by (nonlinear_arith)
                        requires
                            r <= m - 1,
                            w >= 0,
                    ;
                }
                assert(0 <= square_row_start(w, r)) by (nonlinear_arith)
                    requires
                        r >= 0,
                        w >= 0,
                ;
            } else {
                assert(r == m);
                assert(prefix.len() == st);
                if m % 2 == 1 {
                    assert(row == seq!['\n', ' '] + cells);
                } else {
                    assert(row == seq!['\n'] + cells);
                }
                assert(row[1 + ind + 2 * k] == cells[2 * k]);
                assert(row[2 + ind + 2 * k] == cells[2 * k + 1]);
                assert((2 * k + 1) / 2 == k);
                assert(cells[2 * k + 1] == char_at(layout, chars, hex(from + k, m)));
                assert(from + k == k - m / 2);
                assert(text[st + 1 + ind + 2 * k] == row[1 + ind + 2 * k]);
                assert(text[st + 2 + ind + 2 * k] == row[2 + ind + 2 * k]);
            }
        }
    }
}

/// The text of a square grid lays it out: a line break opens every row, odd rows and only they
/// are indented by one more space, so that rows two apart line up, and every cell is a space and
/// its character at its column.
pub proof fn lemma_square_dump_laid_out(layout: SquareGridLayout, chars: Seq<char>)
    requires
        layout.valid(),
    ensures
        square_text_laid_out(layout, chars, square_dump_text(layout, chars)),
{
    let w = layout.width as int;
    let h = layout.height as int;
    lemma_square_rows(layout, chars, h);
    let rows = square_rows_text(layout, chars, h);
    let text = square_dump_text(layout, chars);
    assert(text == rows + seq!['\n']);
    assert forall|r: int| 0 <= r < h implies text[#[trigger] square_row_start(w, r)] == '\n' by {
        lemma_row_start_bounds(w, r, h);
        assert(rows[square_row_start(w, r)] == '\n');
    }
    assert forall|r: int| 0 <= r < h && r % 2 == 1 implies text[#[trigger] square_row_start(w, r) + 1] == ' ' by {
        lemma_row_start_bounds(w, r, h);
        assert(rows[square_row_start(w, r) + 1] == ' ');
    }
    assert forall|r: int, k: int| 0 <= r < h && 0 <= k < w implies {
        &&& text[#[trigger] (square_row_start(w, r) + 1 + r % 2 + 2 * k)] == ' '
        &&& text[square_row_start(w, r) + 2 + r % 2 + 2 * k] == char_at(layout, chars, hex(k - r / 2, r))
    } by {
        lemma_row_start_bounds(w, r, h);
        assert(rows[square_row_start(w, r) + 1 + r % 2 + 2 * k] == ' ');
    }
}

/// The rows of a hexagonal grid, dumped as lines, are read back cell by cell: the lines give
/// the grid's radius, every cell of the lines stands at a position of the layout and holds the
/// character dumped for that position, and every position of the layout has a cell.
pub proof fn lemma_dumped_rows_read(layout: HexagonalGridLayout, chars: Seq<char>, lines: Seq<Seq<char>>)
    requires
        layout.valid(),
        layout.radius >= 1,
        lines.len() == 2 * layout.radius - 1,
        forall|l: int| 0 <= l < lines.len() ==> #[trigger] lines[l] == hex_row_line(
            layout,
            chars,
            l - layout.radius + 1,
        ),
    ensures
        loaded_radius(lines.len() as int) == layout.radius,
        forall|l: int, k: int| #[trigger] is_cell(lines, l, k) ==> {
            &&& layout.spec_contains(load_coord(layout.radius as int, l, k))
            &&& cell_char(lines, l, k) == char_at(layout, chars, load_coord(layout.radius as int, l, k))
        },
        forall|p: HexCoord| #[trigger] layout.spec_contains(p) ==> exists|l: int, k: int| #[trigger] is_cell(lines, l, k)
            && load_coord(layout.radius as int, l, k) == p,
{
    let radius = layout.radius as int;
    hex_size_facts(layout);
    assert(loaded_radius(lines.len() as int) == radius);
    assert forall|l: int, k: int| #[trigger] is_cell(lines, l, k) implies {
        &&& layout.spec_contains(load_coord(radius, l, k))
        &&& cell_char(lines, l, k) == char_at(layout, chars, load_coord(radius, l, k))
    } by {
        let r = l - radius + 1;
        let start = hex_row_start(radius, r);
        let end = hex_row_end(radius, r);
        lemma_row_cells(layout, chars, r, start, end);
        let cells = row_cells(layout, chars, r, start, end);
        assert(lines[l] == spaces(abs(r) as int) + cells);
        assert(first_cell_index(radius, l) == abs(r) + 1);
        assert(lines[l].len() == abs(r) + 2 * (end - start));
        assert(0 <= k < end - start);
        assert(lines[l][abs(r) + 1 + 2 * k] == cells[2 * k + 1]);
        assert(cells[2 * k + 1] == char_at(layout, chars, hex(start + k, r)));
        assert(load_coord(radius, l, k) == hex(start + k, r));
        let q = start + k;
        assert(1 - radius <= q <= radius - 1);
        assert(1 - radius <= q + r <= radius - 1);
        assert(1 - radius <= r <= radius - 1);
        assert(hex(q, r).spec_length() <= radius - 1);
    }
    assert forall|p: HexCoord| #[trigger] layout.spec_contains(p) implies exists|l: int, k: int| #[trigger] is_cell(
        lines,
        l,
        k,
    ) && load_coord(radius, l, k) == p by {
        let r = p.r as int;
        let l = r + radius - 1;
        let start = hex_row_start(radius, r);
        let end = hex_row_end(radius, r);
        let k = p.q - start;
        assert(-radius < r < radius);
        lemma_row_cells(layout, chars, r, start, end);
        assert(lines[l].len() == abs(r) + 2 * (end - start));
        assert(first_cell_index(radius, l) == abs(r) + 1);
        assert(0 <= k < end - start);
        assert(is_cell(lines, l, k));
        assert(load_coord(radius, l, k) == p);
    }
}

/// Loading the rows of a hexagonal grid of characters as a dump writes them, each after its line
/// break, and reading each character as itself, gives the grid back: the same layout, and at
/// every position the character dumped for it.
pub proof fn lemma_dump_load_roundtrip<E, F: Fn(char) -> Result<char, E>>(
    layout: HexagonalGridLayout,
    chars: Seq<char>,
    lines: Seq<Seq<char>>,
    grid: Grid<HexagonalGridLayout, char>,
    load_item: F,
)
    requires
        layout.valid(),
        layout.radius >= 1,
        lines.len() == 2 * layout.radius - 1,
        forall|l: int| 0 <= l < lines.len() ==> #[trigger] lines[l] == hex_row_line(
            layout,
            chars,
            l - layout.radius + 1,
        ),
        hex_read_from(grid, lines, load_item),
        forall|c: char, res: Result<char, E>| call_ensures(load_item, (c,), res) ==> res == Ok::<char, E>(c),
    ensures
        forall|r: int| #[trigger] hex_row_text(layout, chars, r) == seq!['\n'] + hex_row_line(layout, chars, r),
        grid.layout == layout,
        forall|p: HexCoord| #[trigger] layout.spec_contains(p) ==> grid.spec_at(p) == Some(char_at(layout, chars, p)),
{
    lemma_dumped_rows_read(layout, chars, lines);
    let radius = layout.radius as int;
    assert(grid.layout == layout);
    assert forall|p: HexCoord| #[trigger] layout.spec_contains(p) implies grid.spec_at(p) == Some(
        char_at(layout, chars, p),
    ) by {
        let (l, k) = choose|l: int, k: int| #[trigger] is_cell(lines, l, k) && load_coord(radius, l, k) == p;
        assert(load_coord(grid.layout.radius as int, l, k) == p);
        let v = choose|v: char| {
            &&& call_ensures(load_item, (cell_char(lines, l, k),), Ok::<char, E>(v))
            &&& grid.layout.spec_contains(load_coord(grid.layout.radius as int, l, k)) ==> grid.spec_at(
                load_coord(grid.layout.radius as int, l, k),
            ) == Some(v)
        };
        assert(Ok::<char, E>(v) == Ok::<char, E>(cell_char(lines, l, k)));
    }
    assert forall|r: int| #[trigger] hex_row_text(layout, chars, r) == seq!['\n'] + hex_row_line(layout, chars, r) by {
        assert(hex_row_text(layout, chars, r) =~= seq!['\n'] + hex_row_line(layout, chars, r));
    }
}

/// Reading cell `k` of line `lineno` leaves the positions at which no cell read so far stands as
/// they were.
proof fn lemma_fill_step<Item: Clone>(
    before: Grid<HexagonalGridLayout, Item>,
    after: Grid<HexagonalGridLayout, Item>,
    lines: Seq<Seq<char>>,
    lineno: int,
    k: int,
    value: Item,
    fill: Item,
)
    requires
        before.wf(),
        before.layout.radius == loaded_radius(lines.len() as int),
        1 <= before.layout.radius <= 26755,
        loadable(lines),
        is_cell(lines, lineno, k),
        rest_filled(before, lines, lineno, k, fill),
        after.layout == before.layout,
        after.cells() == match before.layout.spec_offset(load_coord(before.layout.radius as int, lineno, k)) {
            Some(o) => before.cells().update(o, value),
            None => before.cells(),
        },
    ensures
        rest_filled(after, lines, lineno, k + 1, fill),
{
    let radius = before.layout.radius as int;
    let coord = load_coord(radius, lineno, k);
    assert(lines[lineno].len() <= i32::MAX);
    assert forall|p: HexCoord| #![trigger after.spec_at(p)] after.layout.can_locate(p) && !loaded_before(
        lines,
        after.layout.radius as int,
        lineno,
        k + 1,
        p,
    ) implies match after.spec_at(p) {
        Some(v) => cloned(fill, v),
        None => true,
    } by {
        assert(loaded_before(lines, radius, lineno, k + 1, coord));
        assert(p != coord);
        if loaded_before(lines, radius, lineno, k, p) {
            let (l2, k2) = choose|l2: int, k2: int| is_cell(lines, l2, k2) && (l2 < lineno || (l2 == lineno && k2 < k))
                && #[trigger] load_coord(radius, l2, k2) == p;
            assert(loaded_before(lines, radius, lineno, k + 1, p));
        }
        assert(before.layout.can_locate(coord)) by {
            before.layout.lemma_coord_of_offset(coord);
        }
        lemma_set_elsewhere(before, after, coord, value, p);
        assert(before.spec_at(p) == after.spec_at(p));
    }
}

/// Reading a grid from lines of text, each character of a cell read as the value it converts
/// to.
pub trait LoadGrid: Sized {
    type Error;

    /// The lines can be read as a grid of a valid layout.
    spec fn can_load(lines: Seq<Seq<char>>) -> bool;

    /// The grid that the lines describe, or an error if a character stands for no value.
    fn load(lines: &Vec<String>) -> (res: Result<Self, Self::Error>)
        requires
            Self::can_load(line_texts(lines@));
}

impl<Item: TryFrom<char> + Clone + Default> LoadGrid for Grid<HexagonalGridLayout, Item> {
    type Error = WFCError;

    open spec fn can_load(lines: Seq<Seq<char>>) -> bool {
        loadable(lines)
    }

    fn load(lines: &Vec<String>) -> (res: Result<Self, WFCError>)
        ensures
            match res {
                Ok(grid) => hex_read_from(grid, line_texts(lines@), item_of_char::<Item>) && exists|d: Item|
                    #[trigger] call_ensures(Item::default, (), d) && rest_filled(
                    grid,
                    line_texts(lines@),
                    lines@.len() as int,
                    0,
                    d,
                ),
                Err(e) => e is CellParseError && some_cell_fails(line_texts(lines@), item_of_char::<Item>),
            },
    {
        <Self as LoadGridWith>::load_with(lines, item_of_char::<Item>)
    }
}

/// The value that a character converts to.
pub fn item_of_char<Item: TryFrom<char>>(c: char) -> (item: Result<Item, <Item as TryFrom<char>>::Error>)
    ensures
        call_ensures(Item::try_from, (c,), item),
{
    Item::try_from(c)
}

} // verus!
