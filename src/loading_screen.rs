use vstd::prelude::*;
use crate::models::{cells_of_chars, grid_view, Cell, TermSubState, TerminalState};
use crate::terminal_templates::{template_view, BALLOON_SPINNER_CHARS, LOAD_TEMPLATE};
use crate::utils::generate_cell_line;

verus! {

/// The assets fetched before the main menu opens, in order.
pub const FILES_TO_LOAD: [&'static str; 6] = [
    "fonts/TerminalFont.ttf",
    "fonts/UbuntuMonoNerdFontMono-Bold.ttf",
    "fonts/UbuntuMonoNerdFontMono-BoldItalic.ttf",
    "fonts/UbuntuMonoNerdFontMono-Italic.ttf",
    "fonts/UbuntuMonoNerdFontMono-Regular.ttf",
    "projects.json",
];

/// The progress of the loading screen.
#[derive(Clone, Copy, Debug, PartialEq, Eq, Structural)]
pub struct LoadingProgress {
    /// The file being fetched, as a position in `FILES_TO_LOAD`.
    pub file_loading_index: usize,
    /// The spinner frame on display.
    pub animation_step: usize,
    /// Where the spinner is drawn.
    pub spinner_x: usize,
    pub spinner_y: usize,
}

pub open spec fn spaces(n: nat) -> Seq<char> {
    Seq::new(n, |i: int| ' ')
}

/// How far `text` is indented to stand centred in `width` columns.
pub open spec fn center_pad(len: nat, width: nat) -> nat {
    if width >= len { ((width - len) / 2) as nat } else { 0 }
}

/// `text` centred in `width` columns, as cells.
pub open spec fn centered(text: Seq<char>, width: nat) -> Seq<Cell> {
    cells_of_chars(spaces(center_pad(text.len(), width)) + text)
}

/// The status line under the banner: the first spinner frame and the word.
pub open spec fn loading_label() -> Seq<char> {
    seq![BALLOON_SPINNER_CHARS[0], ' ', 'L', 'o', 'a', 'd', 'i', 'n', 'g']
}

/// The banner's cells.
pub open spec fn banner_cells() -> Seq<Seq<Cell>> {
    template_view(LOAD_TEMPLATE@).map_values(|l: Seq<char>| cells_of_chars(l))
}

/// The banner's width: that of its first line.
pub open spec fn banner_width() -> nat {
    template_view(LOAD_TEMPLATE@)[0].len()
}

/// `text` centred in `width` columns.
fn centered_line(text: &Vec<char>, width: usize) -> (line: Vec<Cell>)
    ensures
        line@ == centered(text@, width as nat),
{
    let pad = if width >= text.len() { (width - text.len()) / 2 } else { 0 };
    let mut line: Vec<Cell> = Vec::new();
    let mut i: usize = 0;
    while i < pad
        invariant
            i <= pad,
            line@ == cells_of_chars(spaces(i as nat)),
        decreases pad - i,
    {
        line.push(Cell::new(' '));
        proof {
            assert(line@ =~= cells_of_chars(spaces(i as nat + 1)));
        }
        i = i + 1;
    }
    let mut j: usize = 0;
    while j < text.len()
        invariant
            j <= text@.len(),
            line@ == cells_of_chars(spaces(pad as nat) + text@.take(j as int)),
        decreases text@.len() - j,
    {
        line.push(Cell::new(text[j]));
        proof {
            assert(line@ =~= cells_of_chars(spaces(pad as nat) + text@.take(j + 1)));
        }
        j = j + 1;
    }
    proof {
        assert(text@.take(j as int) =~= text@);
    }
    line
}

/// Shows the loading banner with the spinner and the name of the first file;
/// returns where the spinner is drawn.
pub fn setup_loading_state(terminal_state: &mut TerminalState, first_file: &str) -> (pos: (usize, usize))
    ensures
        final(terminal_state).sub_state is Load,
        grid_view(final(terminal_state).cell_buffer@) == banner_cells() + seq![
            centered(loading_label(), banner_width()),
            centered(first_file@, banner_width()),
        ],
        pos == (center_pad(loading_label().len(), banner_width()) as usize, banner_cells().len() as usize),
        final(terminal_state).projects == old(terminal_state).projects,
        final(terminal_state).line_buffer == old(terminal_state).line_buffer,
{
    terminal_state.sub_state = TermSubState::Load;
    let template = LOAD_TEMPLATE;
    let mut cells: Vec<Vec<Cell>> = Vec::new();
    let mut i: usize = 0;
    while i < template.len()
        invariant
            i <= template@.len(),
            template@ == LOAD_TEMPLATE@,
            grid_view(cells@) == banner_cells().take(i as int),
        decreases template@.len() - i,
    {
        let ghost before = grid_view(cells@);
        let line = generate_cell_line(template[i]);
        cells.push(line);
        proof {
            assert(grid_view(cells@) =~= before.push(line@));
            assert(grid_view(cells@) =~= banner_cells().take(i + 1));
        }
        i = i + 1;
    }
    proof {
        assert(banner_cells().take(i as int) =~= banner_cells());
    }
    let rect_length = cells[0].len();
    proof {
        assert(grid_view(cells@)[0] == cells@[0]@);
        assert(banner_cells()[0] == cells_of_chars(template_view(LOAD_TEMPLATE@)[0]));
        assert(rect_length == banner_width());
    }
    let mut label: Vec<char> = Vec::new();
    label.push(BALLOON_SPINNER_CHARS[0]);
    label.push(' ');
    label.push('L');
    label.push('o');
    label.push('a');
    label.push('d');
    label.push('i');
    label.push('n');
    label.push('g');
    proof {
        assert(label@ =~= loading_label());
    }
    let loading_str = centered_line(&label, rect_length);
    let file_name = crate::markdown_renderer::chars_of(first_file);
    let first_file_str = centered_line(&file_name, rect_length);
    let ghost before = grid_view(cells@);
    cells.push(loading_str);
    cells.push(first_file_str);
    proof {
        assert(grid_view(cells@) =~= before + seq![loading_str@, first_file_str@]);
    }
    let cell_x = if rect_length >= label.len() { (rect_length - label.len()) / 2 } else { 0 };
    let cell_y = cells.len() - 2;
    terminal_state.cell_buffer = cells;
    (cell_x, cell_y)
}

/// `grid` with the character at `(y, x)` replaced, when there is such a cell.
pub open spec fn with_char(grid: Seq<Seq<Cell>>, y: int, x: int, c: char) -> Seq<Seq<Cell>> {
    Seq::new(grid.len(), |yy: int| Seq::new(grid[yy].len(), |xx: int|
        if yy == y && xx == x { Cell { char: c, ..grid[yy][xx] } } else { grid[yy][xx] }))
}

/// Advances the spinner by one frame and draws it. Returns whether the
/// spinner has come round to its first frame, the moment at which a
/// finished fetch is collected.
pub fn spinner_tick(terminal_state: &mut TerminalState, progress: &mut LoadingProgress) -> (cycle_done: bool)
    ensures
        final(progress).animation_step == (old(progress).animation_step as int + 1) % 7,
        final(progress).file_loading_index == old(progress).file_loading_index,
        final(progress).spinner_x == old(progress).spinner_x,
        final(progress).spinner_y == old(progress).spinner_y,
        cycle_done == (final(progress).animation_step == 0),
        grid_view(final(terminal_state).cell_buffer@) == with_char(grid_view(old(terminal_state).cell_buffer@),
            old(progress).spinner_y as int, old(progress).spinner_x as int,
            BALLOON_SPINNER_CHARS[final(progress).animation_step as int]),
        *final(terminal_state) == (TerminalState { cell_buffer: final(terminal_state).cell_buffer, ..*old(terminal_state) }),
{
    progress.animation_step = (progress.animation_step % 7 + 1) % 7;
    proof {
        let a = old(progress).animation_step as int;
        assert((a % 7 + 1) % 7 == (a + 1) % 7) by (nonlinear_arith);
    }
    let c = BALLOON_SPINNER_CHARS[progress.animation_step];
    let ghost g0 = grid_view(terminal_state.cell_buffer@);
    let y = progress.spinner_y;
    let x = progress.spinner_x;
    if y < terminal_state.cell_buffer.len() {
        let mut line: Vec<Cell> = Vec::new();
        std::mem::swap(&mut line, &mut terminal_state.cell_buffer[y]);
        if x < line.len() {
            let cell = line[x];
            line[x] = Cell { char: c, ..cell };
        }
        let ghost gl = line@;
        terminal_state.cell_buffer[y] = line;
        proof {
            let t = with_char(g0, y as int, x as int, c);
            assert(gl =~= t[y as int]);
            assert forall|yy: int| 0 <= yy < g0.len() implies #[trigger] grid_view(terminal_state.cell_buffer@)[yy] == t[yy] by {
                if yy != y {
                    assert(t[yy] =~= g0[yy]);
                }
            }
            assert(grid_view(terminal_state.cell_buffer@) =~= t);
        }
    } else {
        proof {
            let t = with_char(g0, y as int, x as int, c);
            assert forall|yy: int| 0 <= yy < g0.len() implies #[trigger] t[yy] == g0[yy] by {
                assert(t[yy] =~= g0[yy]);
            }
            assert(g0 =~= t);
        }
    }
    progress.animation_step == 0
}

/// Moves on past the file just collected. When another file is left, its
/// name replaces the last line and its position in `FILES_TO_LOAD` is
/// returned, to be fetched next.
pub fn advance_file(terminal_state: &mut TerminalState, progress: &mut LoadingProgress) -> (next: Option<usize>)
    requires
        old(progress).file_loading_index < FILES_TO_LOAD.len(),
        old(terminal_state).cell_buffer@.len() > 0,
    ensures
        final(progress).file_loading_index == old(progress).file_loading_index + 1,
        final(progress).animation_step == old(progress).animation_step,
        final(progress).spinner_x == old(progress).spinner_x,
        final(progress).spinner_y == old(progress).spinner_y,
        final(progress).file_loading_index < FILES_TO_LOAD.len() ==> {
            let g = grid_view(old(terminal_state).cell_buffer@);
            &&& next == Some(final(progress).file_loading_index)
            &&& grid_view(final(terminal_state).cell_buffer@) == g.drop_last().push(
                centered(FILES_TO_LOAD@[final(progress).file_loading_index as int]@, g[0].len()))
        },
        final(progress).file_loading_index >= FILES_TO_LOAD.len() ==> next is None && final(terminal_state).cell_buffer
            == old(terminal_state).cell_buffer,
        *final(terminal_state) == (TerminalState { cell_buffer: final(terminal_state).cell_buffer, ..*old(terminal_state) }),
{
    progress.file_loading_index = progress.file_loading_index + 1;
    let files = FILES_TO_LOAD;
    if progress.file_loading_index < files.len() {
        let ghost g0 = grid_view(terminal_state.cell_buffer@);
        let buffer_width = terminal_state.cell_buffer[0].len();
        terminal_state.cell_buffer.pop();
        let name = crate::markdown_renderer::chars_of(files[progress.file_loading_index]);
        let new_file_line = centered_line(&name, buffer_width);
        let ghost before = grid_view(terminal_state.cell_buffer@);
        terminal_state.cell_buffer.push(new_file_line);
        proof {
            assert(before =~= g0.drop_last());
            assert(grid_view(terminal_state.cell_buffer@) =~= before.push(new_file_line@));
        }
        Some(progress.file_loading_index)
    } else {
        None
    }
}

} // verus!
