use vstd::prelude::*;
use crate::models::{
    blank_line, blank_row, cells_of_chars, grid_view, is_rect, paste, Cell, CellPanel, Color, TerminalState,
};
use crate::terminal_templates::{find_chars, find_from, CellRect};

verus! {

/// The cells of one line of text, in the default style.
pub fn generate_cell_line(string: &str) -> (line: Vec<Cell>)
    ensures
        line@ == cells_of_chars(string@),
{
    let mut line: Vec<Cell> = Vec::new();
    for c in it: string.chars()
        invariant
            line@ == cells_of_chars(it.seq().take(it.index() as int)),
            it.seq() == string@,
    {
        line.push(Cell::new(c));
        proof {
            assert(it.seq().take(it.index() as int + 1) =~= it.seq().take(it.index() as int).push(c));
            assert(line@ =~= cells_of_chars(it.seq().take(it.index() as int + 1)));
        }
    }
    proof {
        assert(string@.take(string@.len() as int) =~= string@);
    }
    line
}

/// Why a set of panels cannot be composited.
#[derive(Clone, Copy, Debug, PartialEq, Eq, Structural)]
pub enum ComposeError {
    /// The panel at this position does not keep a one-cell margin inside the grid.
    PanelOutOfBounds { panel: usize },
}

/// The box-drawing glyph for a border cell whose marked neighbours are given;
/// `None` for a pattern that no valid layout produces.
pub open spec fn border_glyph(up: bool, down: bool, left: bool, right: bool) -> Option<char> {
    if up && down && !left && !right {
        Some('┃')
    } else if !up && !down && left && right {
        Some('━')
    } else if up && down && !left && right {
        Some('┣')
    } else if up && down && left && !right {
        Some('┫')
    } else if up && !down && left && right {
        Some('┻')
    } else if !up && down && left && right {
        Some('┳')
    } else if up && down && left && right {
        Some('╋')
    } else if !up && down && !left && right {
        Some('┏')
    } else if !up && down && left && !right {
        Some('┓')
    } else if up && !down && !left && right {
        Some('┗')
    } else if up && !down && left && !right {
        Some('┛')
    } else {
        None
    }
}

/// Picks the box-drawing glyph from the four orthogonal border marks.
pub fn parse_cell_from_neighbors(up: bool, down: bool, left: bool, right: bool) -> (r: Option<char>)
    ensures
        r == border_glyph(up, down, left, right),
{
    match (up, down, left, right) {
        (true, true, false, false) => Some('┃'),
        (false, false, true, true) => Some('━'),
        (true, true, false, true) => Some('┣'),
        (true, true, true, false) => Some('┫'),
        (true, false, true, true) => Some('┻'),
        (false, true, true, true) => Some('┳'),
        (true, true, true, true) => Some('╋'),
        (false, true, false, true) => Some('┏'),
        (false, true, true, false) => Some('┓'),
        (true, false, false, true) => Some('┗'),
        (true, false, true, false) => Some('┛'),
        _ => None,
    }
}

/// The panel keeps at least one cell of margin inside a `w` by `h` grid.
pub open spec fn in_margin(p: CellPanel, w: int, h: int) -> bool {
    &&& p.offset_y > 0
    &&& p.offset_y + p.height < h
    &&& p.offset_x > 0
    &&& p.offset_x + p.width < w
}

/// `(y, x)` lies on the frame one cell outside the panel's display area.
pub open spec fn on_frame(p: CellPanel, y: int, x: int) -> bool {
    let top = p.offset_y - 1;
    let bottom = p.offset_y + p.height;
    let left = p.offset_x - 1;
    let right = p.offset_x + p.width;
    ||| (y == top || y == bottom) && left <= x <= right
    ||| (x == left || x == right) && top <= y <= bottom
}

/// The border occupancy map: `(y, x)` lies on the frame of some panel.
pub open spec fn on_border(panels: Seq<CellPanel>, y: int, x: int) -> bool
    decreases panels.len(),
{
    if panels.len() == 0 {
        false
    } else {
        on_border(panels.drop_last(), y, x) || on_frame(panels.last(), y, x)
    }
}

/// The occupancy map as a grid of marks.
pub open spec fn border_map(panels: Seq<CellPanel>, w: nat, h: nat) -> Seq<Seq<bool>> {
    Seq::new(h, |y: int| Seq::new(w, |x: int| on_border(panels, y, x)))
}

/// A frame cell takes the panel's border colour unless an earlier panel
/// already gave it one.
pub open spec fn frame_cell(c: Cell, color: Option<Color>) -> Cell {
    if c.foreground_color == Color::Green {
        Cell {
            foreground_color: match color {
                Some(k) => k,
                None => Color::Green,
            },
            ..c
        }
    } else {
        c
    }
}

pub open spec fn frame_line(line: Seq<Cell>, p: CellPanel, y: int) -> Seq<Cell> {
    Seq::new(line.len(), |x: int| if on_frame(p, y, x) { frame_cell(line[x], p.box_color) } else { line[x] })
}

/// `grid` with the panel's frame coloured.
pub open spec fn frame_grid(grid: Seq<Seq<Cell>>, p: CellPanel) -> Seq<Seq<Cell>> {
    Seq::new(grid.len(), |y: int| frame_line(grid[y], p, y))
}

pub open spec fn blank_grid(w: nat, h: nat) -> Seq<Seq<Cell>> {
    Seq::new(h, |y: int| blank_row(w))
}

/// The grid after each panel in turn has coloured its frame and written its
/// visible rows.
pub open spec fn layer(panels: Seq<CellPanel>, w: nat, h: nat) -> Seq<Seq<Cell>>
    decreases panels.len(),
{
    if panels.len() == 0 {
        blank_grid(w, h)
    } else {
        let p = panels.last();
        paste(frame_grid(layer(panels.drop_last(), w, h), p), p.shown_rows(), p.offset_x as int, p.offset_y as int)
    }
}

/// The glyph that the marks around `(y, x)` call for.
pub open spec fn map_glyph(b: Seq<Seq<bool>>, w: int, h: int, y: int, x: int) -> Option<char> {
    border_glyph(
        y > 0 && b[y - 1][x],
        y + 1 < h && b[y + 1][x],
        x > 0 && b[y][x - 1],
        x + 1 < w && b[y][x + 1],
    )
}

pub open spec fn glyph_cell(c: Cell, g: Option<char>) -> Cell {
    match g {
        Some(ch) => Cell { char: ch, ..c },
        None => c,
    }
}

/// Row `y` with every marked cell given its box-drawing glyph.
pub open spec fn glyph_line(line: Seq<Cell>, b: Seq<Seq<bool>>, w: int, h: int, y: int) -> Seq<Cell> {
    Seq::new(line.len(), |x: int| if b[y][x] { glyph_cell(line[x], map_glyph(b, w, h, y, x)) } else { line[x] })
}

/// The composited grid: all panels layered, then the border drawn.
pub open spec fn compose_grid(panels: Seq<CellPanel>, w: nat, h: nat) -> Seq<Seq<Cell>> {
    let base = layer(panels, w, h);
    let b = border_map(panels, w, h);
    Seq::new(h, |y: int| glyph_line(base[y], b, w as int, h as int, y))
}

/// The marks of a grid of booleans.
pub open spec fn mark_view(g: Seq<Vec<bool>>) -> Seq<Seq<bool>> {
    g.map_values(|r: Vec<bool>| r@)
}

impl CellPanel {
    /// No row of the fitted buffer is wider than the panel.
    pub open spec fn can_show(&self) -> bool {
        forall|k: int| 0 <= k < self.fitted_buffer@.len() ==> (#[trigger] self.fitted_buffer@[k])@.len() <= self.width
    }
}

fn frame_cell_exec(c: Cell, color: Option<Color>) -> (r: Cell)
    ensures
        r == frame_cell(c, color),
{
    if c.foreground_color == Color::Green {
        let k = match color {
            Some(k) => k,
            None => Color::Green,
        };
        Cell { foreground_color: k, ..c }
    } else {
        c
    }
}

/// Colours and marks the frame cells of row `y`.
fn frame_row(line: &mut Vec<Cell>, marks: &mut Vec<bool>, p: &CellPanel, y: usize, w: usize, h: usize)
    requires
        old(line)@.len() == w,
        old(marks)@.len() == w,
        in_margin(*p, w as int, h as int),
        p.offset_y - 1 <= y <= p.offset_y + p.height,
    ensures
        final(line)@ == frame_line(old(line)@, *p, y as int),
        final(marks)@ == Seq::new(w as nat, |x: int| old(marks)@[x] || on_frame(*p, y as int, x)),
{
    let ghost l0 = line@;
    let ghost m0 = marks@;
    let left = p.offset_x - 1;
    let right = p.offset_x + p.width;
    if y == p.offset_y - 1 || y == p.offset_y + p.height {
        let mut x = left;
        while x <= right
            invariant
                left <= x <= right + 1,
                left == p.offset_x - 1,
                right == p.offset_x + p.width,
                right < w,
                y == p.offset_y - 1 || y == p.offset_y + p.height,
                line@.len() == w,
                marks@.len() == w,
                forall|j: int| 0 <= j < w ==> #[trigger] line@[j] == (if left <= j < x { frame_cell(l0[j], p.box_color) } else { l0[j] }),
                forall|j: int| 0 <= j < w ==> #[trigger] marks@[j] == (if left <= j < x { true } else { m0[j] }),
            decreases right + 1 - x,
        {
            let c = frame_cell_exec(line[x], p.box_color);
            line[x] = c;
            marks[x] = true;
            x = x + 1;
        }
    } else {
        let c = frame_cell_exec(line[left], p.box_color);
        line[left] = c;
        marks[left] = true;
        let c = frame_cell_exec(line[right], p.box_color);
        line[right] = c;
        marks[right] = true;
    }
    proof {
        assert(line@ =~= frame_line(l0, *p, y as int));
        assert(marks@ =~= Seq::new(w as nat, |x: int| m0[x] || on_frame(*p, y as int, x)));
    }
}

/// Colours and marks the frame of `p` on the whole grid.
fn frame_panel(grid: &mut Vec<Vec<Cell>>, marks: &mut Vec<Vec<bool>>, p: &CellPanel, w: usize, h: usize)
    requires
        is_rect(grid_view(old(grid)@), w as nat, h as nat),
        mark_view(old(marks)@).len() == h,
        forall|y: int| 0 <= y < h ==> (#[trigger] old(marks)@[y])@.len() == w,
        in_margin(*p, w as int, h as int),
    ensures
        grid_view(final(grid)@) == frame_grid(grid_view(old(grid)@), *p),
        mark_view(final(marks)@) == Seq::new(h as nat, |y: int| Seq::new(w as nat,
            |x: int| mark_view(old(marks)@)[y][x] || on_frame(*p, y, x))),
{
    let ghost g0 = grid_view(grid@);
    let ghost m0 = mark_view(marks@);
    let ghost target_g = frame_grid(g0, *p);
    let ghost target_m = Seq::new(h as nat, |y: int| Seq::new(w as nat, |x: int| m0[y][x] || on_frame(*p, y, x)));
    let top = p.offset_y - 1;
    let bottom = p.offset_y + p.height;
    let mut y = top;
    proof {
        assert forall|yy: int| 0 <= yy < h && !(top <= yy <= bottom) implies frame_line(g0[yy], *p, yy) == g0[yy] by {
            assert(frame_line(g0[yy], *p, yy) =~= g0[yy]);
        }
        assert forall|yy: int| 0 <= yy < h && !(top <= yy <= bottom) implies target_m[yy] == m0[yy] by {
            assert(target_m[yy] =~= m0[yy]);
        }
    }
    while y <= bottom
        invariant
            top <= y <= bottom + 1,
            top == p.offset_y - 1,
            bottom == p.offset_y + p.height,
            bottom < h,
            in_margin(*p, w as int, h as int),
            is_rect(g0, w as nat, h as nat),
            target_g == frame_grid(g0, *p),
            target_m == Seq::new(h as nat, |y: int| Seq::new(w as nat, |x: int| m0[y][x] || on_frame(*p, y, x))),
            grid@.len() == h,
            marks@.len() == h,
            forall|yy: int| 0 <= yy < h ==> (#[trigger] m0[yy]).len() == w,
            forall|yy: int| 0 <= yy < h ==> #[trigger] grid_view(grid@)[yy] == (if top <= yy < y { target_g[yy] } else { g0[yy] }),
            forall|yy: int| 0 <= yy < h ==> #[trigger] mark_view(marks@)[yy] == (if top <= yy < y { target_m[yy] } else { m0[yy] }),
        decreases bottom + 1 - y,
    {
        let ghost start_g = grid@;
        let ghost start_m = marks@;
        let mut line: Vec<Cell> = Vec::new();
        let mut mline: Vec<bool> = Vec::new();
        assert(grid_view(grid@)[y as int] == grid@[y as int]@);
        assert(mark_view(marks@)[y as int] == marks@[y as int]@);
        std::mem::swap(&mut line, &mut grid[y]);
        std::mem::swap(&mut mline, &mut marks[y]);
        assert(line@ == g0[y as int]);
        assert(mline@ == m0[y as int]);
        frame_row(&mut line, &mut mline, p, y, w, h);
        assert(mline@ =~= target_m[y as int]);
        assert(line@ == target_g[y as int]);
        let ghost gl = line@;
        let ghost ml = mline@;
        grid[y] = line;
        marks[y] = mline;
        proof {
            assert forall|yy: int| 0 <= yy < h implies #[trigger] grid_view(grid@)[yy]
                == (if top <= yy < y + 1 { target_g[yy] } else { g0[yy] }) by {
                if yy != y {
                    assert(grid@[yy] == start_g[yy]);
                    assert(grid_view(start_g)[yy] == start_g[yy]@);
                } else {
                    assert(grid@[yy]@ == gl);
                }
            }
            assert forall|yy: int| 0 <= yy < h implies #[trigger] mark_view(marks@)[yy]
                == (if top <= yy < y + 1 { target_m[yy] } else { m0[yy] }) by {
                if yy != y {
                    assert(marks@[yy] == start_m[yy]);
                    assert(mark_view(start_m)[yy] == start_m[yy]@);
                } else {
                    assert(marks@[yy]@ == ml);
                }
            }
        }
        y = y + 1;
    }
    proof {
        assert(grid_view(grid@) =~= target_g);
        assert(mark_view(marks@) =~= target_m);
    }
}

/// Gives every marked cell of row `y` its box-drawing glyph.
fn glyph_row(line: &mut Vec<Cell>, marks: &Vec<Vec<bool>>, y: usize, w: usize, h: usize)
    requires
        old(line)@.len() == w,
        y < h,
        marks@.len() == h,
        forall|yy: int| 0 <= yy < h ==> (#[trigger] marks@[yy])@.len() == w,
    ensures
        final(line)@ == glyph_line(old(line)@, mark_view(marks@), w as int, h as int, y as int),
{
    let ghost l0 = line@;
    let ghost b = mark_view(marks@);
    let mut x: usize = 0;
    while x < w
        invariant
            x <= w,
            y < h,
            line@.len() == w,
            l0.len() == w,
            marks@.len() == h,
            b == mark_view(marks@),
            forall|yy: int| 0 <= yy < h ==> (#[trigger] marks@[yy])@.len() == w,
            forall|j: int| 0 <= j < w ==> #[trigger] line@[j] == (if j < x && b[y as int][j] {
                glyph_cell(l0[j], map_glyph(b, w as int, h as int, y as int, j))
            } else {
                l0[j]
            }),
        decreases w - x,
    {
        assert(b[y as int] == marks@[y as int]@);
        if marks[y][x] {
            let up = y > 0 && marks[y - 1][x];
            let down = y + 1 < h && marks[y + 1][x];
            let left = x > 0 && marks[y][x - 1];
            let right = x + 1 < w && marks[y][x + 1];
            proof {
                if y > 0 {
                    assert(b[y - 1] == marks@[y - 1]@);
                }
                if y + 1 < h {
                    assert(b[y + 1] == marks@[y + 1]@);
                }
            }
            match parse_cell_from_neighbors(up, down, left, right) {
                Some(c) => {
                    let cell = line[x];
                    line[x] = Cell { char: c, ..cell };
                },
                None => {},
            }
        }
        x = x + 1;
    }
    proof {
        assert(line@ =~= glyph_line(l0, b, w as int, h as int, y as int));
    }
}

/// Frame and content rows both keep a rectangle's shape.
proof fn lemma_layer_step_rect(g: Seq<Seq<Cell>>, p: CellPanel, w: nat, h: nat)
    requires
        is_rect(g, w, h),
        in_margin(p, w as int, h as int),
        p.can_show(),
    ensures
        is_rect(frame_grid(g, p), w, h),
        p.fits_in(frame_grid(g, p)),
        is_rect(paste(frame_grid(g, p), p.shown_rows(), p.offset_x as int, p.offset_y as int), w, h),
{
    let f = frame_grid(g, p);
    assert forall|y: int| 0 <= y < f.len() implies (#[trigger] f[y]).len() == w by {
        assert(g[y].len() == w);
    }
    let shown = p.shown_rows();
    assert(shown.len() <= p.height);
    assert forall|k: int| 0 <= k < shown.len() implies p.offset_x + (#[trigger] shown[k]).len() <= f[p.offset_y + k].len() by {
        assert(shown[k] == p.fitted_buffer@[p.view_start() + k]@);
        assert(p.fitted_buffer@[p.view_start() + k]@.len() <= p.width);
    }
    let q = paste(f, shown, p.offset_x as int, p.offset_y as int);
    assert forall|y: int| 0 <= y < q.len() implies (#[trigger] q[y]).len() == w by {
        assert(f[y].len() == w);
    }
}

/// Composites the panels onto a fresh `term_width` by `term_height` grid:
/// each panel in turn colours its frame and writes its visible rows, then
/// every frame cell gets the box-drawing glyph its neighbours call for.
/// Fails on the first panel that does not keep a one-cell margin.
pub fn write_cell_panels_with_border(panels: &[CellPanel], term_width: usize, term_height: usize) -> (r: Result<
    Vec<Vec<Cell>>,
    ComposeError,
>)
    requires
        forall|i: int| 0 <= i < panels@.len() ==> (#[trigger] panels@[i]).can_show(),
    ensures
        r matches Ok(grid) ==> {
            &&& forall|i: int| 0 <= i < panels@.len() ==> in_margin(#[trigger] panels@[i], term_width as int, term_height as int)
            &&& grid_view(grid@) == compose_grid(panels@, term_width as nat, term_height as nat)
            &&& is_rect(grid_view(grid@), term_width as nat, term_height as nat)
        },
        r matches Err(e) ==> {
            let panel = e->panel;
            &&& panel < panels@.len()
            &&& !in_margin(panels@[panel as int], term_width as int, term_height as int)
            &&& forall|j: int| 0 <= j < panel ==> in_margin(#[trigger] panels@[j], term_width as int, term_height as int)
        },
{
    let w = term_width;
    let h = term_height;
    let mut i: usize = 0;
    while i < panels.len()
        invariant
            i <= panels@.len(),
            w == term_width,
            h == term_height,
            forall|j: int| 0 <= j < i ==> in_margin(#[trigger] panels@[j], w as int, h as int),
        decreases panels@.len() - i,
    {
        let p = &panels[i];
        if !(p.offset_y > 0 && p.height < h && p.offset_y < h - p.height && p.offset_x > 0 && p.width < w
            && p.offset_x < w - p.width) {
            assert(*p == panels@[i as int]);
            return Err(ComposeError::PanelOutOfBounds { panel: i });
        }
        i = i + 1;
    }
    let mut cell_buffer: Vec<Vec<Cell>> = Vec::new();
    let mut marks: Vec<Vec<bool>> = Vec::new();
    let mut y: usize = 0;
    while y < h
        invariant
            y <= h,
            cell_buffer@.len() == y,
            marks@.len() == y,
            forall|yy: int| 0 <= yy < y ==> #[trigger] cell_buffer@[yy]@ == blank_row(w as nat),
            forall|yy: int| 0 <= yy < y ==> #[trigger] marks@[yy]@ == Seq::new(w as nat, |x: int| false),
        decreases h - y,
    {
        cell_buffer.push(blank_line(w));
        let mut mline: Vec<bool> = Vec::new();
        let mut x: usize = 0;
        while x < w
            invariant
                x <= w,
                mline@ == Seq::new(x as nat, |j: int| false),
            decreases w - x,
        {
            mline.push(false);
            proof {
                assert(mline@ =~= Seq::new(x as nat + 1, |j: int| false));
            }
            x = x + 1;
        }
        marks.push(mline);
        y = y + 1;
    }
    proof {
        assert(grid_view(cell_buffer@) =~= layer(panels@.take(0), w as nat, h as nat));
        assert forall|yy: int| 0 <= yy < h implies #[trigger] mark_view(marks@)[yy] =~= border_map(panels@.take(0), w as nat, h as nat)[yy] by {}
        assert(mark_view(marks@) =~= border_map(panels@.take(0), w as nat, h as nat));
    }
    i = 0;
    while i < panels.len()
        invariant
            i <= panels@.len(),
            w == term_width,
            h == term_height,
            forall|j: int| 0 <= j < panels@.len() ==> in_margin(#[trigger] panels@[j], w as int, h as int),
            forall|j: int| 0 <= j < panels@.len() ==> (#[trigger] panels@[j]).can_show(),
            grid_view(cell_buffer@) == layer(panels@.take(i as int), w as nat, h as nat),
            is_rect(grid_view(cell_buffer@), w as nat, h as nat),
            mark_view(marks@) == border_map(panels@.take(i as int), w as nat, h as nat),
            marks@.len() == h,
            forall|yy: int| 0 <= yy < h ==> (#[trigger] marks@[yy])@.len() == w,
        decreases panels@.len() - i,
    {
        let p = &panels[i];
        let ghost g0 = grid_view(cell_buffer@);
        let ghost m0 = mark_view(marks@);
        assert forall|yy: int| 0 <= yy < h implies (#[trigger] marks@[yy])@.len() == w by {}
        frame_panel(&mut cell_buffer, &mut marks, p, w, h);
        proof {
            lemma_layer_step_rect(g0, *p, w as nat, h as nat);
        }
        p.write_to_buffer(&mut cell_buffer);
        proof {
            let ps = panels@.take(i as int + 1);
            assert(ps.drop_last() =~= panels@.take(i as int));
            assert(ps.last() == *p);
            assert(grid_view(cell_buffer@) == layer(ps, w as nat, h as nat));
            let bm = border_map(ps, w as nat, h as nat);
            assert forall|yy: int| 0 <= yy < h implies #[trigger] mark_view(marks@)[yy] =~= bm[yy] by {
                assert(mark_view(marks@)[yy] == Seq::new(w as nat, |x: int| m0[yy][x] || on_frame(*p, yy, x)));
            }
            assert(mark_view(marks@) =~= bm);
            assert forall|yy: int| 0 <= yy < h implies (#[trigger] marks@[yy])@.len() == w by {
                assert(mark_view(marks@)[yy] == marks@[yy]@);
            }
        }
        i = i + 1;
    }
    proof {
        assert(panels@.take(i as int) =~= panels@);
    }
    let ghost base = grid_view(cell_buffer@);
    let ghost b = mark_view(marks@);
    let ghost target = compose_grid(panels@, w as nat, h as nat);
    y = 0;
    while y < h
        invariant
            y <= h,
            w == term_width,
            h == term_height,
            base == layer(panels@, w as nat, h as nat),
            b == border_map(panels@, w as nat, h as nat),
            b == mark_view(marks@),
            target == compose_grid(panels@, w as nat, h as nat),
            is_rect(base, w as nat, h as nat),
            marks@.len() == h,
            forall|yy: int| 0 <= yy < h ==> (#[trigger] marks@[yy])@.len() == w,
            cell_buffer@.len() == h,
            forall|yy: int| 0 <= yy < h ==> #[trigger] cell_buffer@[yy]@ == (if yy < y { target[yy] } else { base[yy] }),
        decreases h - y,
    {
        let ghost start_g = cell_buffer@;
        let mut line: Vec<Cell> = Vec::new();
        std::mem::swap(&mut line, &mut cell_buffer[y]);
        assert(line@ == base[y as int]);
        glyph_row(&mut line, &marks, y, w, h);
        assert(line@ == target[y as int]);
        let ghost gl = line@;
        cell_buffer[y] = line;
        proof {
            assert forall|yy: int| 0 <= yy < h implies #[trigger] cell_buffer@[yy]@ == (if yy < y + 1 { target[yy] } else { base[yy] }) by {
                if yy != y {
                    assert(cell_buffer@[yy] == start_g[yy]);
                } else {
                    assert(cell_buffer@[yy]@ == gl);
                }
            }
        }
        y = y + 1;
    }
    proof {
        assert(grid_view(cell_buffer@) =~= target);
        lemma_compose_rect(panels@, w as nat, h as nat);
    }
    Ok(cell_buffer)
}


/// `grid` with the background of every existing cell in rows `[y0, y1)`
/// and columns `[x0, x1)` set to `bg`.
pub open spec fn painted(grid: Seq<Seq<Cell>>, y0: int, y1: int, x0: int, x1: int, bg: Option<Color>) -> Seq<Seq<Cell>> {
    Seq::new(grid.len(), |y: int| Seq::new(grid[y].len(), |x: int|
        if y0 <= y < y1 && x0 <= x < x1 { Cell { background_color: bg, ..grid[y][x] } } else { grid[y][x] }))
}

/// `grid` with the cells of `rect` tinted `color`; cells outside the grid are skipped.
pub open spec fn highlighted(grid: Seq<Seq<Cell>>, rect: CellRect, color: Color) -> Seq<Seq<Cell>> {
    painted(grid, rect.y as int, rect.y + rect.h, rect.x as int, rect.x + rect.w, Some(color))
}

/// `grid` with every tint removed.
pub open spec fn unhighlighted(grid: Seq<Seq<Cell>>) -> Seq<Seq<Cell>> {
    painted(grid, 0, grid.len() as int, 0, usize::MAX as int, None)
}

fn paint_row(line: &mut Vec<Cell>, x0: usize, x1: usize, bg: Option<Color>)
    ensures
        final(line)@ == Seq::new(old(line)@.len(), |x: int|
            if x0 <= x < x1 { Cell { background_color: bg, ..old(line)@[x] } } else { old(line)@[x] }),
{
    let ghost l0 = line@;
    let end = if x1 < line.len() { x1 } else { line.len() };
    let mut x = x0;
    while x < end
        invariant
            x0 <= x,
            end <= l0.len(),
            end == x1 || end == l0.len(),
            line@.len() == l0.len(),
            forall|j: int| 0 <= j < l0.len() ==> #[trigger] line@[j] == (if x0 <= j < x && j < end {
                Cell { background_color: bg, ..l0[j] }
            } else {
                l0[j]
            }),
        decreases end - x,
    {
        let cell = line[x];
        line[x] = Cell { background_color: bg, ..cell };
        x = x + 1;
    }
    proof {
        assert(line@ =~= Seq::new(l0.len(), |x: int|
            if x0 <= x < x1 { Cell { background_color: bg, ..l0[x] } } else { l0[x] }));
    }
}

/// Sets the background of the cells in rows `[y0, y1)`, columns `[x0, x1)`.
fn paint(grid: &mut Vec<Vec<Cell>>, y0: usize, y1: usize, x0: usize, x1: usize, bg: Option<Color>)
    ensures
        grid_view(final(grid)@) == painted(grid_view(old(grid)@), y0 as int, y1 as int, x0 as int, x1 as int, bg),
{
    let ghost g0 = grid_view(grid@);
    let ghost target = painted(g0, y0 as int, y1 as int, x0 as int, x1 as int, bg);
    let end = if y1 < grid.len() { y1 } else { grid.len() };
    proof {
        assert forall|yy: int| 0 <= yy < g0.len() && !(y0 <= yy < y1) implies target[yy] == g0[yy] by {
            assert(target[yy] =~= g0[yy]);
        }
    }
    let mut y = y0;
    while y < end
        invariant
            y0 <= y,
            end <= g0.len(),
            end <= y1,
            grid@.len() == g0.len(),
            target == painted(g0, y0 as int, y1 as int, x0 as int, x1 as int, bg),
            forall|yy: int| 0 <= yy < g0.len() && !(y0 <= yy < y1) ==> target[yy] == g0[yy],
            forall|yy: int| 0 <= yy < g0.len() ==> #[trigger] grid@[yy]@ == (if y0 <= yy < y && yy < end {
                target[yy]
            } else {
                g0[yy]
            }),
        decreases end - y,
    {
        let ghost start_g = grid@;
        let mut line: Vec<Cell> = Vec::new();
        std::mem::swap(&mut line, &mut grid[y]);
        assert(line@ == g0[y as int]);
        paint_row(&mut line, x0, x1, bg);
        assert(line@ =~= target[y as int]);
        let ghost gl = line@;
        grid[y] = line;
        proof {
            assert forall|yy: int| 0 <= yy < g0.len() implies #[trigger] grid@[yy]@ == (if y0 <= yy < y + 1 && yy < end {
                target[yy]
            } else {
                g0[yy]
            }) by {
                if yy != y {
                    assert(grid@[yy] == start_g[yy]);
                } else {
                    assert(grid@[yy]@ == gl);
                }
            }
        }
        y = y + 1;
    }
    proof {
        assert(grid_view(grid@) =~= target);
    }
}

/// Tints the cells of `rect` with `background_color`; the part of `rect`
/// outside the grid is ignored.
pub fn highlight_cells(rect: &CellRect, terminal_state: &mut TerminalState, background_color: Color)
    ensures
        grid_view(final(terminal_state).cell_buffer@) == highlighted(grid_view(old(terminal_state).cell_buffer@), *rect,
            background_color),
        *final(terminal_state) == (TerminalState { cell_buffer: final(terminal_state).cell_buffer, ..*old(terminal_state) }),
{
    let y_end = if rect.h <= usize::MAX - rect.y { rect.y + rect.h } else { usize::MAX };
    let x_end = if rect.w <= usize::MAX - rect.x { rect.x + rect.w } else { usize::MAX };
    let ghost g0 = grid_view(terminal_state.cell_buffer@);
    paint(&mut terminal_state.cell_buffer, rect.y, y_end, rect.x, x_end, Some(background_color));
    proof {
        let old_rows = old(terminal_state).cell_buffer@;
        assert(old_rows.len() == old(terminal_state).cell_buffer.len());
        assert forall|y: int| 0 <= y < g0.len() implies #[trigger] g0[y].len() <= usize::MAX by {
            assert(g0[y] == old_rows[y]@);
            assert(old_rows[y]@.len() == old_rows[y].len());
        }
        let a = painted(g0, rect.y as int, y_end as int, rect.x as int, x_end as int, Some(background_color));
        let b = highlighted(g0, *rect, background_color);
        assert forall|y: int| 0 <= y < g0.len() implies #[trigger] a[y] =~= b[y] by {
            assert(g0[y].len() <= usize::MAX);
        }
        assert(a =~= b);
    }
}

/// Removes every tint from the grid.
pub fn reset_all_highlights(terminal_state: &mut TerminalState)
    ensures
        grid_view(final(terminal_state).cell_buffer@) == unhighlighted(grid_view(old(terminal_state).cell_buffer@)),
        *final(terminal_state) == (TerminalState { cell_buffer: final(terminal_state).cell_buffer, ..*old(terminal_state) }),
{
    let rows = terminal_state.cell_buffer.len();
    paint(&mut terminal_state.cell_buffer, 0, rows, 0, usize::MAX, None);
}

/// One step back through `range` positions, wrapping from 0 to the last one.
pub fn overflow_sub(num: &usize, range: usize) -> (r: usize)
    requires
        *num > 0 || range > 0,
    ensures
        r == (if *num == 0 { range - 1 } else { *num - 1 }),
{
    if *num == 0 {
        range - 1
    } else {
        *num - 1
    }
}

/// The characters shown by a row of cells.
pub open spec fn line_chars(line: Seq<Cell>) -> Seq<char> {
    line.map_values(|c: Cell| c.char)
}

fn chars_of_cells(line: &Vec<Cell>) -> (r: Vec<char>)
    ensures
        r@ == line_chars(line@),
{
    let mut r: Vec<char> = Vec::new();
    let mut i: usize = 0;
    while i < line.len()
        invariant
            i <= line@.len(),
            r@ == line_chars(line@.take(i as int)),
        decreases line@.len() - i,
    {
        r.push(line[i].char);
        proof {
            assert(r@ =~= line_chars(line@.take(i + 1)));
        }
        i = i + 1;
    }
    proof {
        assert(line@.take(i as int) =~= line@);
    }
    r
}

/// The first position in the row where the characters of `substr` appear.
pub fn find_substr(cell_line: &Vec<Cell>, substr: &str) -> (r: Option<usize>)
    ensures
        r matches Some(i) ==> find_from(line_chars(cell_line@), substr@, 0) == Some(i as int),
        r is None ==> find_from(line_chars(cell_line@), substr@, 0) is None,
{
    let hay = chars_of_cells(cell_line);
    let needle = crate::markdown_renderer::chars_of(substr);
    find_chars(&hay, &needle)
}

/// The characters of every row of the grid, for display as plain text.
pub fn grid_chars(cell_buffer: &Vec<Vec<Cell>>) -> (r: Vec<Vec<char>>)
    ensures
        r@.len() == cell_buffer@.len(),
        forall|y: int| 0 <= y < r@.len() ==> (#[trigger] r@[y])@ == line_chars(cell_buffer@[y]@),
{
    let mut r: Vec<Vec<char>> = Vec::new();
    let mut y: usize = 0;
    while y < cell_buffer.len()
        invariant
            y <= cell_buffer@.len(),
            r@.len() == y,
            forall|j: int| 0 <= j < y ==> (#[trigger] r@[j])@ == line_chars(cell_buffer@[j]@),
        decreases cell_buffer@.len() - y,
    {
        r.push(chars_of_cells(&cell_buffer[y]));
        y = y + 1;
    }
    r
}


/// The layered grid keeps the shape of the blank grid it starts from.
pub proof fn lemma_layer_rect(panels: Seq<CellPanel>, w: nat, h: nat)
    ensures
        is_rect(layer(panels, w, h), w, h),
    decreases panels.len(),
{
    if panels.len() > 0 {
        let p = panels.last();
        lemma_layer_rect(panels.drop_last(), w, h);
        let g = layer(panels.drop_last(), w, h);
        let f = frame_grid(g, p);
        assert forall|y: int| 0 <= y < f.len() implies (#[trigger] f[y]).len() == w by {
            assert(g[y].len() == w);
        }
        crate::models::lemma_paste_keeps_shape(f, p.shown_rows(), p.offset_x as int, p.offset_y as int);
        let q = layer(panels, w, h);
        assert forall|y: int| 0 <= y < q.len() implies (#[trigger] q[y]).len() == w by {
            assert(f[y].len() == w);
        }
    }
}

/// Every grid the compositor produces is a rectangle of `h` rows of `w` cells.
pub proof fn lemma_compose_rect(panels: Seq<CellPanel>, w: nat, h: nat)
    ensures
        is_rect(compose_grid(panels, w, h), w, h),
{
    lemma_layer_rect(panels, w, h);
    let base = layer(panels, w, h);
    let g = compose_grid(panels, w, h);
    assert forall|y: int| 0 <= y < g.len() implies (#[trigger] g[y]).len() == w by {
        assert(base[y].len() == w);
    }
}

/// A cell is on the border exactly when it is on the frame of some panel.
pub proof fn lemma_on_border_exists(panels: Seq<CellPanel>, y: int, x: int)
    ensures
        on_border(panels, y, x) <==> exists|i: int| 0 <= i < panels.len() && on_frame(#[trigger] panels[i], y, x),
    decreases panels.len(),
{
    if panels.len() > 0 {
        let d = panels.drop_last();
        lemma_on_border_exists(d, y, x);
        if on_border(panels, y, x) {
            if on_border(d, y, x) {
                let i = choose|i: int| 0 <= i < d.len() && on_frame(#[trigger] d[i], y, x);
                assert(panels[i] == d[i]);
            } else {
                assert(on_frame(panels[panels.len() - 1], y, x));
            }
        }
        if exists|i: int| 0 <= i < panels.len() && on_frame(#[trigger] panels[i], y, x) {
            let i = choose|i: int| 0 <= i < panels.len() && on_frame(#[trigger] panels[i], y, x);
            if i < panels.len() - 1 {
                assert(d[i] == panels[i]);
            }
        }
    }
}

/// When every panel keeps its margin, each border cell has at least two
/// marked neighbours along its own frame, so the glyph table always has an
/// entry for it: the compositor never meets an invalid pattern.
pub proof fn lemma_border_glyph_exists(panels: Seq<CellPanel>, w: nat, h: nat, y: int, x: int)
    requires
        forall|i: int| 0 <= i < panels.len() ==> in_margin(#[trigger] panels[i], w as int, h as int),
        0 <= y < h,
        0 <= x < w,
        on_border(panels, y, x),
    ensures
        map_glyph(border_map(panels, w, h), w as int, h as int, y, x) is Some,
{
    lemma_on_border_exists(panels, y, x);
    let i = choose|i: int| 0 <= i < panels.len() && on_frame(#[trigger] panels[i], y, x);
    let p = panels[i];
    assert(in_margin(p, w as int, h as int));
    let b = border_map(panels, w, h);
    lemma_on_border_exists(panels, y - 1, x);
    lemma_on_border_exists(panels, y + 1, x);
    lemma_on_border_exists(panels, y, x - 1);
    lemma_on_border_exists(panels, y, x + 1);
    let up = on_frame(p, y - 1, x);
    let down = on_frame(p, y + 1, x);
    let left = on_frame(p, y, x - 1);
    let right = on_frame(p, y, x + 1);
    if up {
        assert(y - 1 >= 0 && b[y - 1][x]);
    }
    if down {
        assert(y + 1 < h && b[y + 1][x]);
    }
    if left {
        assert(x - 1 >= 0 && b[y][x - 1]);
    }
    if right {
        assert(x + 1 < w && b[y][x + 1]);
    }
    assert((up && down) || (up && left) || (up && right) || (down && left) || (down && right) || (left && right));
}

/// Two panels sit at the same place with the same size.
pub open spec fn same_placement(a: CellPanel, b: CellPanel) -> bool {
    a.offset_x == b.offset_x && a.offset_y == b.offset_y && a.width == b.width && a.height == b.height
}

proof fn lemma_on_border_by_placement(a: Seq<CellPanel>, b: Seq<CellPanel>, y: int, x: int)
    requires
        a.len() == b.len(),
        forall|i: int| 0 <= i < a.len() ==> same_placement(#[trigger] a[i], b[i]),
    ensures
        on_border(a, y, x) == on_border(b, y, x),
    decreases a.len(),
{
    if a.len() > 0 {
        let da = a.drop_last();
        let db = b.drop_last();
        assert forall|i: int| 0 <= i < da.len() implies same_placement(#[trigger] da[i], db[i]) by {
            assert(da[i] == a[i] && db[i] == b[i]);
        }
        lemma_on_border_by_placement(da, db, y, x);
        assert(same_placement(a[a.len() - 1], b[b.len() - 1]));
    }
}

/// The border is drawn from the placements alone: for two lists of panels
/// placed alike, whatever they hold, the compositor marks the same border
/// cells and draws the same box-drawing glyph on each.
pub proof fn lemma_border_determined_by_placement(a: Seq<CellPanel>, b: Seq<CellPanel>, w: nat, h: nat)
    requires
        a.len() == b.len(),
        forall|i: int| 0 <= i < a.len() ==> same_placement(#[trigger] a[i], b[i]),
        forall|i: int| 0 <= i < a.len() ==> in_margin(#[trigger] a[i], w as int, h as int),
    ensures
        border_map(a, w, h) == border_map(b, w, h),
        forall|y: int, x: int| 0 <= y < h && 0 <= x < w && on_border(a, y, x) ==> {
            &&& map_glyph(border_map(a, w, h), w as int, h as int, y, x) matches Some(c)
            &&& (#[trigger] compose_grid(a, w, h)[y][x]).char == c
            &&& compose_grid(b, w, h)[y][x].char == c
        },
{
    let ba = border_map(a, w, h);
    let bb = border_map(b, w, h);
    assert forall|y: int| 0 <= y < h implies #[trigger] ba[y] =~= bb[y] by {
        assert forall|x: int| 0 <= x < w implies ba[y][x] == bb[y][x] by {
            lemma_on_border_by_placement(a, b, y, x);
        }
    }
    assert(ba =~= bb);
    lemma_layer_rect(a, w, h);
    lemma_layer_rect(b, w, h);
    assert forall|y: int, x: int| 0 <= y < h && 0 <= x < w && on_border(a, y, x) implies {
        &&& map_glyph(border_map(a, w, h), w as int, h as int, y, x) matches Some(c)
        &&& (#[trigger] compose_grid(a, w, h)[y][x]).char == c
        &&& compose_grid(b, w, h)[y][x].char == c
    } by {
        lemma_border_glyph_exists(a, w, h, y, x);
        assert(layer(a, w, h)[y].len() == w);
        assert(layer(b, w, h)[y].len() == w);
    }
}


proof fn lemma_chunk_rows_narrow(rows: Seq<Seq<Cell>>, width: nat)
    requires
        width > 0,
        forall|i: int| 0 <= i < rows.len() ==> (#[trigger] rows[i]).len() <= width,
    ensures
        crate::models::chunk_rows(rows, width) == rows.map_values(|r: Seq<Cell>| crate::models::pad_row(r, width)),
    decreases rows.len(),
{
    if rows.len() > 0 {
        let d = rows.drop_last();
        assert forall|i: int| 0 <= i < d.len() implies (#[trigger] d[i]).len() <= width by {
            assert(d[i] == rows[i]);
        }
        lemma_chunk_rows_narrow(d, width);
        assert(rows.last().len() <= width);
        assert(crate::models::chunk_rows(rows, width) =~= rows.map_values(|r: Seq<Cell>| crate::models::pad_row(r, width)));
    }
}

/// Round trip: a panel made from lines that fit its width, composited alone,
/// shows every character of every visible line at its offset.
pub proof fn lemma_from_strings_round_trip(p: CellPanel, lines: Seq<Seq<char>>, gw: nat, gh: nat, row: int, col: int)
    requires
        p.width > 0,
        grid_view(p.cells@) == lines.map_values(|l: Seq<char>| cells_of_chars(l)),
        forall|i: int| 0 <= i < lines.len() ==> (#[trigger] lines[i]).len() <= p.width,
        p.is_fitted(),
        p.index == 0,
        in_margin(p, gw as int, gh as int),
        0 <= row < lines.len(),
        row < p.height,
        0 <= col < lines[row].len(),
    ensures
        compose_grid(seq![p], gw, gh)[p.offset_y + row][p.offset_x + col].char == lines[row][col],
{
    let rows = grid_view(p.cells@);
    assert forall|i: int| 0 <= i < rows.len() implies (#[trigger] rows[i]).len() <= p.width by {
        assert(rows[i] == cells_of_chars(lines[i]));
    }
    lemma_chunk_rows_narrow(rows, p.width as nat);
    crate::models::lemma_fitted_rows(p);
    let fitted = grid_view(p.fitted_buffer@);
    assert(fitted[row] == crate::models::pad_row(rows[row], p.width as nat));
    let ps = seq![p];
    assert(ps.drop_last() =~= Seq::<CellPanel>::empty());
    assert(ps.last() == p);
    let y = p.offset_y + row;
    let x = p.offset_x + col;
    let shown = p.shown_rows();
    assert(p.view_start() == 0);
    assert(shown[row] == fitted[row]);
    let base = layer(ps, gw, gh);
    lemma_layer_rect(ps, gw, gh);
    assert(blank_grid(gw, gh)[y].len() == gw);
    assert(frame_grid(blank_grid(gw, gh), p)[y].len() == gw);
    assert(base[y][x] == shown[row][col]);
    assert(!on_border(Seq::<CellPanel>::empty(), y, x));
    assert(!on_frame(p, y, x));
    assert(!on_border(ps, y, x));
}

} // verus!
