use vstd::prelude::*;
use crate::utils::generate_cell_line;

verus! {

/// The small fixed palette the terminal draws with.
#[derive(Clone, Copy, Debug, PartialEq, Eq, Structural)]
pub enum Color {
    Green,
    White,
    DarkGreen,
}

/// Which face a cell is rasterized with.
#[derive(Clone, Copy, Debug, PartialEq, Eq, Structural)]
pub enum FontType {
    Default,
    ResumeDefault,
    ResumeBold,
    ResumeItalic,
    ResumeItalicBold,
}

/// One character position of the terminal grid.
#[derive(Clone, Copy, Debug, PartialEq, Eq, Structural)]
pub struct Cell {
    pub char: char,
    pub foreground_color: Color,
    pub background_color: Option<Color>,
    pub font_type: FontType,
}

/// A plain green cell holding `c`.
pub open spec fn plain_cell(c: char) -> Cell {
    Cell { char: c, foreground_color: Color::Green, background_color: None, font_type: FontType::Default }
}

/// The blank cell that pads rows and fills fresh grids.
pub open spec fn blank_cell() -> Cell {
    plain_cell(' ')
}

impl Default for Cell {
    fn default() -> (c: Cell)
        ensures
            c == blank_cell(),
    {
        Cell::new(' ')
    }
}

impl Cell {
    pub fn new(c: char) -> (r: Cell)
        ensures
            r == plain_cell(c),
    {
        Cell { char: c, foreground_color: Color::Green, background_color: None, font_type: FontType::Default }
    }
}

/// The mathematical view of a grid: its rows as sequences.
pub open spec fn grid_view(g: Seq<Vec<Cell>>) -> Seq<Seq<Cell>> {
    g.map_values(|r: Vec<Cell>| r@)
}

/// Every row of `g` holds exactly `width` cells.
pub open spec fn rows_have_width(g: Seq<Seq<Cell>>, width: nat) -> bool {
    forall|i: int| 0 <= i < g.len() ==> (#[trigger] g[i]).len() == width
}

/// `g` is a rectangle of `height` rows of `width` cells.
pub open spec fn is_rect(g: Seq<Seq<Cell>>, width: nat, height: nat) -> bool {
    g.len() == height && rows_have_width(g, width)
}

/// A row of `width` blank cells.
pub open spec fn blank_row(width: nat) -> Seq<Cell> {
    Seq::new(width, |c: int| blank_cell())
}

/// The first `width` cells of `row`, padded with blanks when `row` is shorter.
pub open spec fn pad_row(row: Seq<Cell>, width: nat) -> Seq<Cell> {
    Seq::new(width, |c: int| if c < row.len() { row[c] } else { blank_cell() })
}

/// One content row cut into rows of `width` cells, the last one padded.
/// An empty row still gives one (blank) row.
pub open spec fn chunk_row(row: Seq<Cell>, width: nat) -> Seq<Seq<Cell>>
    decreases row.len(),
{
    if row.len() <= width || width == 0 {
        seq![pad_row(row, width)]
    } else {
        seq![pad_row(row, width)] + chunk_row(row.skip(width as int), width)
    }
}

/// All content rows cut to `width`, in order.
pub open spec fn chunk_rows(rows: Seq<Seq<Cell>>, width: nat) -> Seq<Seq<Cell>>
    decreases rows.len(),
{
    if rows.len() == 0 {
        seq![]
    } else {
        chunk_rows(rows.drop_last(), width) + chunk_row(rows.last(), width)
    }
}

/// The fitted buffer of a panel: its content cut to `width`, then padded
/// with blank rows up to `height` rows.
pub open spec fn fit_cells(rows: Seq<Seq<Cell>>, width: nat, height: nat) -> Seq<Seq<Cell>> {
    let body = chunk_rows(rows, width);
    if body.len() >= height {
        body
    } else {
        body + Seq::new((height - body.len()) as nat, |i: int| blank_row(width))
    }
}

/// Content can be cut to `width`: a zero width holds only empty rows.
pub open spec fn can_fit(rows: Seq<Seq<Cell>>, width: nat) -> bool {
    width > 0 || forall|i: int| 0 <= i < rows.len() ==> (#[trigger] rows[i]).len() == 0
}

/// A record of the project manifest.
pub struct ProjectInfo {
    pub name: String,
    pub ascii_art: Vec<String>,
    pub markdown: String,
    pub url: String,
}

/// A rectangular, scrollable view of content placed on the terminal grid.
pub struct CellPanel {
    pub cells: Vec<Vec<Cell>>,
    pub fitted_buffer: Vec<Vec<Cell>>,
    pub box_color: Option<Color>,
    pub index: usize,
    pub width: usize,
    pub height: usize,
    pub offset_x: usize,
    pub offset_y: usize,
}


impl CellPanel {
    /// What `fit_buffer` makes of this panel's content.
    pub open spec fn spec_fitted(&self) -> Seq<Seq<Cell>> {
        fit_cells(grid_view(self.cells@), self.width as nat, self.height as nat)
    }

    /// The fitted buffer is the fitted form of the current content.
    pub open spec fn is_fitted(&self) -> bool {
        grid_view(self.fitted_buffer@) == self.spec_fitted()
    }

    /// Rebuilds the fitted buffer from the content; nothing else changes.
    pub fn fit_buffer(&mut self)
        requires
            can_fit(grid_view(old(self).cells@), old(self).width as nat),
        ensures
            final(self).is_fitted(),
            *final(self) == (CellPanel { fitted_buffer: final(self).fitted_buffer, ..*old(self) }),
            final(self).fitted_buffer@.len() >= final(self).height,
            final(self).fitted_buffer@.len() >= final(self).cells@.len(),
            forall|k: int| 0 <= k < final(self).fitted_buffer@.len()
                ==> (#[trigger] final(self).fitted_buffer@[k])@.len() == final(self).width,
    {
        let ghost rows = grid_view(self.cells@);
        let width = self.width;
        let mut fitted: Vec<Vec<Cell>> = Vec::new();
        let mut r: usize = 0;
        while r < self.cells.len()
            invariant
                r <= self.cells@.len(),
                rows == grid_view(self.cells@),
                width == self.width,
                can_fit(rows, width as nat),
                grid_view(fitted@) == chunk_rows(rows.take(r as int), width as nat),
            decreases self.cells@.len() - r,
        {
            let row = &self.cells[r];
            let ghost target = chunk_rows(rows.take(r as int + 1), width as nat);
            proof {
                assert(rows.take(r as int + 1).drop_last() =~= rows.take(r as int));
                assert(rows.take(r as int + 1).last() == row@);
                assert(target == chunk_rows(rows.take(r as int), width as nat) + chunk_row(row@, width as nat));
                assert(row@.skip(0) =~= row@);
            }
            let mut start: usize = 0;
            loop
                invariant_except_break
                    grid_view(fitted@) + chunk_row(row@.skip(start as int), width as nat) == target,
                invariant
                    width == self.width,
                    width > 0 || row@.len() == 0,
                    start <= row@.len(),
                ensures
                    grid_view(fitted@) == target,
                decreases row@.len() - start,
            {
                let line = padded_chunk(row, start, width);
                let ghost before = grid_view(fitted@);
                fitted.push(line);
                proof {
                    assert(grid_view(fitted@) =~= before.push(line@));
                }
                if row.len() - start <= width {
                    proof {
                        assert(before.push(line@) =~= before + seq![line@]);
                    }
                    break;
                }
                proof {
                    assert(row@.skip(start as int).skip(width as int) =~= row@.skip(start as int + width));
                    assert(before.push(line@) + chunk_row(row@.skip(start as int + width), width as nat)
                        =~= before + chunk_row(row@.skip(start as int), width as nat));
                }
                start = start + width;
            }
            r = r + 1;
        }
        proof {
            assert(rows.take(r as int) =~= rows);
        }
        let ghost body = grid_view(fitted@);
        while fitted.len() < self.height
            invariant
                width == self.width,
                body.len() <= fitted@.len(),
                fitted@.len() <= self.height || fitted@.len() == body.len(),
                grid_view(fitted@) == body + Seq::new((fitted@.len() - body.len()) as nat, |i: int| blank_row(width as nat)),
            decreases self.height - fitted@.len(),
        {
            let line = blank_line(width);
            let ghost before = grid_view(fitted@);
            fitted.push(line);
            proof {
                assert(grid_view(fitted@) =~= before.push(blank_row(width as nat)));
                assert(before.push(blank_row(width as nat)) =~= body + Seq::new((fitted@.len() - body.len()) as nat, |i: int| blank_row(width as nat)));
            }
        }
        proof {
            if body.len() >= self.height {
                assert(grid_view(fitted@) =~= body);
            } else {
                assert(fitted@.len() == self.height);
            }
        }
        self.fitted_buffer = fitted;
        proof {
            lemma_fitted_rows(*self);
        }
    }
}

/// `pad_row(row[start..], width)`, built cell by cell.
fn padded_chunk(row: &Vec<Cell>, start: usize, width: usize) -> (line: Vec<Cell>)
    requires
        start <= row@.len(),
    ensures
        line@ == pad_row(row@.skip(start as int), width as nat),
{
    let mut line: Vec<Cell> = Vec::new();
    let mut c: usize = 0;
    while c < width
        invariant
            c <= width,
            start <= row@.len(),
            line@.len() == c,
            forall|i: int| 0 <= i < c ==> #[trigger] line@[i] == (if i < row@.len() - start { row@[start + i] } else { blank_cell() }),
        decreases width - c,
    {
        if c < row.len() - start {
            line.push(row[start + c]);
        } else {
            line.push(Cell::default());
        }
        c = c + 1;
    }
    proof {
        assert(line@ =~= pad_row(row@.skip(start as int), width as nat));
    }
    line
}

/// A row of `width` blank cells.
pub fn blank_line(width: usize) -> (line: Vec<Cell>)
    ensures
        line@ == blank_row(width as nat),
{
    let mut line: Vec<Cell> = Vec::new();
    let mut c: usize = 0;
    while c < width
        invariant
            c <= width,
            line@ =~= blank_row(c as nat),
        decreases width - c,
    {
        line.push(Cell::default());
        c = c + 1;
    }
    line
}


/// `line` with `src` laid over it from column `ox` on.
pub open spec fn paste_line(line: Seq<Cell>, src: Seq<Cell>, ox: int) -> Seq<Cell> {
    Seq::new(line.len(), |x: int| if ox <= x < ox + src.len() { src[x - ox] } else { line[x] })
}

/// `grid` with `rows` laid over it, row `k` of `rows` on row `oy + k` from column `ox` on.
pub open spec fn paste(grid: Seq<Seq<Cell>>, rows: Seq<Seq<Cell>>, ox: int, oy: int) -> Seq<Seq<Cell>> {
    Seq::new(grid.len(), |y: int| if oy <= y < oy + rows.len() { paste_line(grid[y], rows[y - oy], ox) } else { grid[y] })
}

/// The cells of one line of text, in the default style.
pub open spec fn cells_of_chars(s: Seq<char>) -> Seq<Cell> {
    s.map_values(|c: char| plain_cell(c))
}

/// The cells of several lines of text.
pub open spec fn cells_of_lines(lines: Seq<String>) -> Seq<Seq<Cell>> {
    lines.map_values(|s: String| cells_of_chars(s@))
}

impl CellPanel {
    /// First fitted row on display: the scroll index, clamped to the end of
    /// the buffer (past the end nothing is shown).
    pub open spec fn view_start(&self) -> int {
        let n = self.fitted_buffer@.len() as int;
        if self.index < n { self.index as int } else { n }
    }

    /// One past the last fitted row on display.
    pub open spec fn view_end(&self) -> int {
        let n = self.fitted_buffer@.len() as int;
        if self.index + self.height < n { self.index + self.height } else { n }
    }

    /// The rows `write_to_buffer` copies.
    pub open spec fn shown_rows(&self) -> Seq<Seq<Cell>> {
        grid_view(self.fitted_buffer@).subrange(self.view_start(), self.view_end())
    }

    /// The shown rows land inside `grid` at the panel's offset.
    pub open spec fn fits_in(&self, grid: Seq<Seq<Cell>>) -> bool {
        &&& self.offset_y + self.shown_rows().len() <= grid.len()
        &&& forall|k: int| 0 <= k < self.shown_rows().len()
            ==> self.offset_x + (#[trigger] self.shown_rows()[k]).len() <= grid[self.offset_y + k].len()
    }

    /// Copies the visible window of the fitted buffer into `char_buffer` at
    /// the panel's offset, cell by cell.
    pub fn write_to_buffer(&self, char_buffer: &mut Vec<Vec<Cell>>)
        requires
            self.fits_in(grid_view(old(char_buffer)@)),
        ensures
            grid_view(final(char_buffer)@) == paste(grid_view(old(char_buffer)@), self.shown_rows(),
                self.offset_x as int, self.offset_y as int),
    {
        let ghost old_grid = grid_view(char_buffer@);
        let ghost shown = self.shown_rows();
        let n = self.fitted_buffer.len();
        let start = if self.index < n { self.index } else { n };
        let end = if self.index < n && self.height < n - self.index { self.index + self.height } else { n };
        assert(start == self.view_start() && end == self.view_end());
        assert(shown.len() == end - start);
        let rows_len = char_buffer.len();
        let mut k = start;
        while k < end
            invariant
                start <= k <= end <= n,
                n == self.fitted_buffer@.len(),
                start == self.view_start(),
                end == self.view_end(),
                shown == self.shown_rows(),
                shown.len() == end - start,
                self.fits_in(old_grid),
                char_buffer@.len() == old_grid.len(),
                rows_len == old_grid.len(),
                grid_view(char_buffer@) == paste(old_grid, shown.take(k - start), self.offset_x as int,
                    self.offset_y as int),
            decreases end - k,
        {
            let row_idx = self.offset_y + (k - start);
            let ghost before = grid_view(char_buffer@);
            assert(shown[k - start] == self.fitted_buffer@[k as int]@);
            assert(before[row_idx as int] == old_grid[row_idx as int]);
            assert(char_buffer@[row_idx as int]@ == before[row_idx as int]);
            let mut line: Vec<Cell> = Vec::new();
            std::mem::swap(&mut line, &mut char_buffer[row_idx]);
            assert(line@ == old_grid[row_idx as int]);
            paste_cells(&mut line, &self.fitted_buffer[k], self.offset_x);
            char_buffer[row_idx] = line;
            proof {
                let ghost after = grid_view(char_buffer@);
                assert(shown.take(k + 1 - start)[k - start] == shown[k - start]);
                assert(after[row_idx as int] == paste_line(old_grid[row_idx as int], shown[k - start], self.offset_x as int));
                assert(forall|y: int| 0 <= y < after.len() && y != row_idx ==> after[y] == before[y]);
                assert(grid_view(char_buffer@) =~= paste(old_grid, shown.take(k + 1 - start),
                    self.offset_x as int, self.offset_y as int));
            }
            k = k + 1;
        }
        proof {
            assert(shown.take(end - start) =~= shown);
        }
    }
}

/// Lays `src` over `line` from column `ox` on.
fn paste_cells(line: &mut Vec<Cell>, src: &Vec<Cell>, ox: usize)
    requires
        ox + src@.len() <= old(line)@.len(),
    ensures
        final(line)@ == paste_line(old(line)@, src@, ox as int),
{
    let ghost orig = line@;
    let line_len = line.len();
    let mut c: usize = 0;
    while c < src.len()
        invariant
            c <= src@.len(),
            ox + src@.len() <= orig.len(),
            line@.len() == orig.len(),
            line_len == orig.len(),
            line@ == paste_line(orig, src@.take(c as int), ox as int),
        decreases src@.len() - c,
    {
        line[ox + c] = src[c];
        proof {
            assert(line@ =~= paste_line(orig, src@.take(c + 1), ox as int));
        }
        c = c + 1;
    }
    proof {
        assert(src@.take(c as int) =~= src@);
    }
}


/// The content rows of several lines of text.
fn cells_from_strings(value: &Vec<String>) -> (cells: Vec<Vec<Cell>>)
    ensures
        grid_view(cells@) == cells_of_lines(value@),
{
    let mut cells: Vec<Vec<Cell>> = Vec::new();
    let mut i: usize = 0;
    while i < value.len()
        invariant
            i <= value@.len(),
            grid_view(cells@) == cells_of_lines(value@.take(i as int)),
        decreases value@.len() - i,
    {
        let ghost before = grid_view(cells@);
        let line = generate_cell_line(value[i].as_str());
        assert(line@ == cells_of_chars(value@[i as int]@));
        cells.push(line);
        proof {
            assert(value@.take(i as int + 1) =~= value@.take(i as int).push(value@[i as int]));
            assert(grid_view(cells@) =~= before.push(line@));
            assert(grid_view(cells@) =~= cells_of_lines(value@.take(i as int + 1)));
        }
        i = i + 1;
    }
    proof {
        assert(value@.take(i as int) =~= value@);
    }
    cells
}

/// Lines of text fit a panel `width` wide.
pub open spec fn lines_fit(value: Seq<String>, width: nat) -> bool {
    can_fit(cells_of_lines(value), width)
}

impl CellPanel {
    /// A panel showing `value`, one line per content row, scrolled to the top.
    pub fn from_strings(value: &Vec<String>, width: usize, height: usize, offset_x: usize, offset_y: usize) -> (panel: Self)
        requires
            lines_fit(value@, width as nat),
        ensures
            grid_view(panel.cells@) == cells_of_lines(value@),
            panel.is_fitted(),
            panel.fitted_buffer@.len() >= height,
            panel.fitted_buffer@.len() >= value@.len(),
            forall|k: int| 0 <= k < panel.fitted_buffer@.len() ==> (#[trigger] panel.fitted_buffer@[k])@.len() == width,
            panel.box_color.is_none(),
            panel.index == 0,
            panel.width == width,
            panel.height == height,
            panel.offset_x == offset_x,
            panel.offset_y == offset_y,
    {
        let cells = cells_from_strings(value);
        let mut cell_panel = CellPanel {
            cells,
            fitted_buffer: Vec::new(),
            box_color: None,
            index: 0,
            width,
            height,
            offset_x,
            offset_y,
        };
        cell_panel.fit_buffer();
        cell_panel
    }

    /// Replaces the content with `strings` and refits; placement and scroll stay.
    pub fn update_from_strings(&mut self, strings: &Vec<String>)
        requires
            lines_fit(strings@, old(self).width as nat),
        ensures
            grid_view(final(self).cells@) == cells_of_lines(strings@),
            final(self).is_fitted(),
            final(self).box_color == old(self).box_color,
            final(self).index == old(self).index,
            final(self).width == old(self).width,
            final(self).height == old(self).height,
            final(self).offset_x == old(self).offset_x,
            final(self).offset_y == old(self).offset_y,
    {
        self.cells = cells_from_strings(strings);
        self.fit_buffer();
    }
}


proof fn lemma_chunk_row_shape(row: Seq<Cell>, width: nat)
    ensures
        chunk_row(row, width).len() >= 1,
        rows_have_width(chunk_row(row, width), width),
        width > 0 && row.len() <= width ==> chunk_row(row, width).len() == 1,
    decreases row.len(),
{
    if !(row.len() <= width || width == 0) {
        lemma_chunk_row_shape(row.skip(width as int), width);
        let rest = chunk_row(row.skip(width as int), width);
        let all = chunk_row(row, width);
        assert forall|i: int| 0 <= i < all.len() implies (#[trigger] all[i]).len() == width by {
            if i > 0 {
                assert(all[i] == rest[i - 1]);
            }
        }
    }
}

proof fn lemma_chunk_rows_shape(rows: Seq<Seq<Cell>>, width: nat)
    ensures
        chunk_rows(rows, width).len() >= rows.len(),
        rows_have_width(chunk_rows(rows, width), width),
    decreases rows.len(),
{
    if rows.len() > 0 {
        lemma_chunk_rows_shape(rows.drop_last(), width);
        lemma_chunk_row_shape(rows.last(), width);
        let a = chunk_rows(rows.drop_last(), width);
        let b = chunk_row(rows.last(), width);
        assert forall|i: int| 0 <= i < a.len() + b.len() implies (#[trigger] (a + b)[i]).len() == width by {
            if i < a.len() {
                assert((a + b)[i] == a[i]);
            } else {
                assert((a + b)[i] == b[i - a.len()]);
            }
        }
    }
}

/// Whatever the content, a fitted buffer has at least `height` rows (and at
/// least one per content row), every one exactly `width` cells.
pub proof fn lemma_fit_shape(rows: Seq<Seq<Cell>>, width: nat, height: nat)
    ensures
        fit_cells(rows, width, height).len() >= height,
        fit_cells(rows, width, height).len() >= rows.len(),
        rows_have_width(fit_cells(rows, width, height), width),
{
    lemma_chunk_rows_shape(rows, width);
    let body = chunk_rows(rows, width);
    let f = fit_cells(rows, width, height);
    if body.len() < height {
        assert forall|i: int| 0 <= i < f.len() implies (#[trigger] f[i]).len() == width by {
            if i < body.len() {
                assert(f[i] == body[i]);
            }
        }
    }
}

/// Fitting twice in a row, with no change to the content in between, gives
/// the same fitted buffer, and fitting never changes the content.
pub proof fn lemma_fit_idempotent(a: CellPanel, b: CellPanel, c: CellPanel)
    requires
        b.is_fitted(),
        b == (CellPanel { fitted_buffer: b.fitted_buffer, ..a }),
        c.is_fitted(),
        c == (CellPanel { fitted_buffer: c.fitted_buffer, ..b }),
    ensures
        grid_view(c.fitted_buffer@) == grid_view(b.fitted_buffer@),
        c.cells == a.cells,
{
}

/// Which screen is active, with the state it navigates by.
pub enum TermSubState {
    Load,
    Main { index: usize },
    Projects {
        selected_project_index: usize,
        project_about_scroll: usize,
        main_focus: bool,
        cell_panels: Vec<CellPanel>,
    },
    Resume(CellPanel),
    Contact {},
}

impl Default for TermSubState {
    fn default() -> (s: Self)
        ensures
            s is Load,
    {
        TermSubState::Load
    }
}

/// The terminal: the grid on display, the text lines it was built from,
/// the project manifest, and the active screen.
pub struct TerminalState {
    pub cell_buffer: Vec<Vec<Cell>>,
    pub line_buffer: Vec<String>,
    pub projects: Vec<ProjectInfo>,
    pub sub_state: TermSubState,
}

impl Default for TerminalState {
    fn default() -> (s: Self)
        ensures
            s.cell_buffer@.len() == 0,
            s.line_buffer@.len() == 0,
            s.projects@.len() == 0,
            s.sub_state is Load,
    {
        TerminalState { cell_buffer: Vec::new(), line_buffer: Vec::new(), projects: Vec::new(), sub_state: TermSubState::Load }
    }
}


impl CellPanel {
    /// Whatever the scroll index, the visible rows land inside `grid`.
    pub open spec fn fits_always(&self, grid: Seq<Seq<Cell>>) -> bool {
        &&& forall|k: int| 0 <= k < self.fitted_buffer@.len() ==> (#[trigger] self.fitted_buffer@[k])@.len() <= self.width
        &&& self.offset_y + self.height <= grid.len()
        &&& forall|y: int| 0 <= y < grid.len() ==> self.offset_x + self.width <= (#[trigger] grid[y]).len()
    }
}

pub proof fn lemma_fits_always(p: CellPanel, grid: Seq<Seq<Cell>>)
    requires
        p.fits_always(grid),
    ensures
        p.fits_in(grid),
{
    let shown = p.shown_rows();
    assert(shown.len() <= p.height);
    assert forall|k: int| 0 <= k < shown.len() implies p.offset_x + (#[trigger] shown[k]).len() <= grid[p.offset_y + k].len() by {
        assert(shown[k] == p.fitted_buffer@[p.view_start() + k]@);
    }
}

/// Pasting keeps the number of rows and the length of every row.
pub proof fn lemma_paste_keeps_shape(grid: Seq<Seq<Cell>>, rows: Seq<Seq<Cell>>, ox: int, oy: int)
    ensures
        paste(grid, rows, ox, oy).len() == grid.len(),
        forall|y: int| 0 <= y < grid.len() ==> (#[trigger] paste(grid, rows, ox, oy)[y]).len() == grid[y].len(),
{
}

impl TerminalState {
    /// The state can always be redrawn: a resume panel fits the grid at
    /// every scroll position.
    pub open spec fn wf(&self) -> bool {
        self.sub_state matches TermSubState::Resume(p) ==> p.fits_always(grid_view(self.cell_buffer@))
    }
}


/// A fitted panel's buffer rows are exactly as wide as the panel, and there
/// are at least `height` of them.
pub proof fn lemma_fitted_rows(p: CellPanel)
    requires
        p.is_fitted(),
    ensures
        p.fitted_buffer@.len() >= p.height,
        p.fitted_buffer@.len() >= p.cells@.len(),
        forall|k: int| 0 <= k < p.fitted_buffer@.len() ==> (#[trigger] p.fitted_buffer@[k])@.len() == p.width,
{
    lemma_fit_shape(grid_view(p.cells@), p.width as nat, p.height as nat);
    assert forall|k: int| 0 <= k < p.fitted_buffer@.len() implies (#[trigger] p.fitted_buffer@[k])@.len() == p.width by {
        assert(grid_view(p.fitted_buffer@)[k] == p.fitted_buffer@[k]@);
    }
}

} // verus!
