use vstd::prelude::*;
use crate::markdown_renderer::{render_markdown, render_rows};
use crate::models::{
    cells_of_chars, cells_of_lines, grid_view, lemma_fitted_rows, plain_cell, Cell, CellPanel, Color, ProjectInfo,
    TermSubState, TerminalState,
};
use crate::utils::{compose_grid, in_margin, write_cell_panels_with_border};

verus! {

pub const PROJECT_SIDE_WIDTH: usize = 21;
pub const PROJECT_ART_HEIGHT: usize = 8;
pub const TERM_HEIGHT: usize = 20;
pub const TERM_WIDTH: usize = 80;

pub const ABOUT_PANEL_INDEX: usize = 0;
pub const ART_PANEL_INDEX: usize = 1;
pub const PROJECTS_PANEL_INDEX: usize = 2;

/// The names of the projects, as text.
pub open spec fn project_names(projects: Seq<ProjectInfo>) -> Seq<Seq<char>> {
    projects.map_values(|p: ProjectInfo| p.name@)
}

/// The selected row of the list: a `> ` marker, then the name on a white tint.
pub open spec fn marked_row(name: Seq<char>) -> Seq<Cell> {
    seq![plain_cell('>'), plain_cell(' ')] + cells_of_chars(name).map_values(
        |c: Cell| Cell { background_color: Some(Color::White), ..c },
    )
}

/// The rows of the project list with entry `sel` marked.
pub open spec fn list_rows(names: Seq<Seq<char>>, sel: int) -> Seq<Seq<Cell>> {
    Seq::new(names.len(), |i: int| if i == sel { marked_row(names[i]) } else { cells_of_chars(names[i]) })
}

/// The about panel: the markdown rendered left of the side column, scrolled
/// to `scroll`, framed in white when it has the focus.
pub open spec fn about_panel_ok(p: CellPanel, markdown: Seq<char>, scroll: usize, focus: bool) -> bool {
    &&& grid_view(p.cells@) == render_rows(markdown, (TERM_WIDTH - PROJECT_SIDE_WIDTH - 1) as nat)
    &&& p.is_fitted()
    &&& p.width == TERM_WIDTH - PROJECT_SIDE_WIDTH - 1
    &&& p.height == TERM_HEIGHT - 2
    &&& p.offset_x == 1
    &&& p.offset_y == 1
    &&& p.index == scroll
    &&& p.box_color == if focus { Some(Color::White) } else { None }
}

/// The art panel: the project's ASCII art at the top of the side column.
pub open spec fn art_panel_ok(p: CellPanel, art: Seq<String>) -> bool {
    &&& grid_view(p.cells@) == cells_of_lines(art)
    &&& p.is_fitted()
    &&& p.width == PROJECT_SIDE_WIDTH - 2
    &&& p.height == PROJECT_ART_HEIGHT - 2
    &&& p.offset_x == TERM_WIDTH - PROJECT_SIDE_WIDTH + 1
    &&& p.offset_y == 1
    &&& p.index == 0
    &&& p.box_color.is_none()
}

/// The list panel: the project names below the art, entry `sel` marked,
/// framed in white when it has the focus.
pub open spec fn list_panel_ok(p: CellPanel, names: Seq<Seq<char>>, sel: int, focus: bool) -> bool {
    &&& grid_view(p.cells@) == list_rows(names, sel)
    &&& p.is_fitted()
    &&& p.width == PROJECT_SIDE_WIDTH - 2
    &&& p.height == TERM_HEIGHT - PROJECT_ART_HEIGHT - 1
    &&& p.offset_x == TERM_WIDTH - PROJECT_SIDE_WIDTH + 1
    &&& p.offset_y == PROJECT_ART_HEIGHT
    &&& p.index == 0
    &&& p.box_color == if focus { None } else { Some(Color::White) }
}

/// The three panels of the projects screen.
pub open spec fn project_panels_ok(
    panels: Seq<CellPanel>,
    markdown: Seq<char>,
    projects: Seq<ProjectInfo>,
    sel: int,
    scroll: usize,
    focus: bool,
) -> bool {
    &&& panels.len() == 3
    &&& about_panel_ok(panels[ABOUT_PANEL_INDEX as int], markdown, scroll, focus)
    &&& art_panel_ok(panels[ART_PANEL_INDEX as int], projects[sel].ascii_art@)
    &&& list_panel_ok(panels[PROJECTS_PANEL_INDEX as int], project_names(projects), sel, focus)
}

/// The state shows the projects screen for project `sel` with the given
/// markdown in its about panel.
pub open spec fn is_projects_screen(ts: TerminalState, markdown: Seq<char>, sel: usize, scroll: usize, focus: bool) -> bool {
    &&& ts.sub_state matches TermSubState::Projects {
        selected_project_index,
        project_about_scroll,
        main_focus,
        cell_panels,
    }
    &&& selected_project_index == sel
    &&& project_about_scroll == scroll
    &&& main_focus == focus
    &&& project_panels_ok(cell_panels@, markdown, ts.projects@, sel as int, scroll, focus)
    &&& grid_view(ts.cell_buffer@) == compose_grid(cell_panels@, TERM_WIDTH as nat, TERM_HEIGHT as nat)
}

/// Marks row `sel` of the list, if there is one.
fn mark_selected(cells: &mut Vec<Vec<Cell>>, sel: usize)
    ensures
        grid_view(final(cells)@) == Seq::new(old(cells)@.len(), |i: int|
            if i == sel { seq![plain_cell('>'), plain_cell(' ')] + grid_view(old(cells)@)[i].map_values(
                |c: Cell| Cell { background_color: Some(Color::White), ..c }) } else { grid_view(old(cells)@)[i] }),
{
    let ghost g0 = grid_view(cells@);
    if sel < cells.len() {
        let mut line: Vec<Cell> = Vec::new();
        std::mem::swap(&mut line, &mut cells[sel]);
        let ghost l0 = line@;
        assert(l0 == g0[sel as int]);
        let mut marked: Vec<Cell> = Vec::new();
        marked.push(Cell::new('>'));
        marked.push(Cell::new(' '));
        let mut i: usize = 0;
        while i < line.len()
            invariant
                i <= l0.len(),
                line@ == l0,
                marked@ == seq![plain_cell('>'), plain_cell(' ')] + l0.take(i as int).map_values(
                    |c: Cell| Cell { background_color: Some(Color::White), ..c }),
            decreases l0.len() - i,
        {
            let cell = line[i];
            marked.push(Cell { background_color: Some(Color::White), ..cell });
            proof {
                assert(marked@ =~= seq![plain_cell('>'), plain_cell(' ')] + l0.take(i + 1).map_values(
                    |c: Cell| Cell { background_color: Some(Color::White), ..c }));
            }
            i = i + 1;
        }
        proof {
            assert(l0.take(i as int) =~= l0);
        }
        cells[sel] = marked;
        proof {
            assert(grid_view(cells@) =~= Seq::new(g0.len(), |k: int|
                if k == sel { seq![plain_cell('>'), plain_cell(' ')] + g0[k].map_values(
                    |c: Cell| Cell { background_color: Some(Color::White), ..c }) } else { g0[k] }));
        }
    } else {
        proof {
            assert(grid_view(cells@) =~= Seq::new(g0.len(), |k: int|
                if k == sel { seq![plain_cell('>'), plain_cell(' ')] + g0[k].map_values(
                    |c: Cell| Cell { background_color: Some(Color::White), ..c }) } else { g0[k] }));
        }
    }
}

/// The names of the projects.
fn names_of(projects: &Vec<ProjectInfo>) -> (names: Vec<String>)
    ensures
        names@.map_values(|s: String| s@) == project_names(projects@),
{
    let mut names: Vec<String> = Vec::new();
    let mut i: usize = 0;
    while i < projects.len()
        invariant
            i <= projects@.len(),
            names@.map_values(|s: String| s@) == project_names(projects@).take(i as int),
        decreases projects@.len() - i,
    {
        let ghost before = names@.map_values(|s: String| s@);
        let name = projects[i].name.clone();
        names.push(name);
        proof {
            assert(names@.map_values(|s: String| s@) =~= before.push(name@));
            assert(names@.map_values(|s: String| s@) =~= project_names(projects@).take(i + 1));
        }
        i = i + 1;
    }
    proof {
        assert(project_names(projects@).take(i as int) =~= project_names(projects@));
    }
    names
}

/// Builds the about, art and list panels for project `sel`.
fn build_project_panels(
    markdown: &String,
    projects: &Vec<ProjectInfo>,
    sel: usize,
    scroll: usize,
    focus: bool,
) -> (panels: Vec<CellPanel>)
    requires
        sel < projects@.len(),
    ensures
        project_panels_ok(panels@, markdown@, projects@, sel as int, scroll, focus),
        forall|i: int| 0 <= i < panels@.len() ==> (#[trigger] panels@[i]).can_show(),
        forall|i: int| 0 <= i < panels@.len() ==> in_margin(#[trigger] panels@[i], TERM_WIDTH as int, TERM_HEIGHT as int),
{
    let mut about_panel = render_markdown(markdown, TERM_WIDTH - PROJECT_SIDE_WIDTH - 1, TERM_HEIGHT - 2);
    about_panel.offset_x = 1;
    about_panel.offset_y = 1;
    about_panel.index = scroll;
    about_panel.box_color = if focus { Some(Color::White) } else { None };
    about_panel.fit_buffer();
    let art_panel = CellPanel::from_strings(
        &projects[sel].ascii_art,
        PROJECT_SIDE_WIDTH - 2,
        PROJECT_ART_HEIGHT - 2,
        TERM_WIDTH - PROJECT_SIDE_WIDTH + 1,
        1,
    );
    let names = names_of(projects);
    let mut projects_panel = CellPanel::from_strings(
        &names,
        PROJECT_SIDE_WIDTH - 2,
        TERM_HEIGHT - PROJECT_ART_HEIGHT - 1,
        TERM_WIDTH - PROJECT_SIDE_WIDTH + 1,
        PROJECT_ART_HEIGHT,
    );
    mark_selected(&mut projects_panel.cells, sel);
    proof {
        let nm = project_names(projects@);
        assert(grid_view(projects_panel.cells@) =~= list_rows(nm, sel as int));
    }
    projects_panel.box_color = if focus { None } else { Some(Color::White) };
    projects_panel.fit_buffer();
    let mut panels: Vec<CellPanel> = Vec::new();
    panels.push(about_panel);
    panels.push(art_panel);
    panels.push(projects_panel);
    proof {
        lemma_fitted_rows(panels@[0]);
        lemma_fitted_rows(panels@[1]);
        lemma_fitted_rows(panels@[2]);
    }
    panels
}

/// Enters the projects screen on the first project; `markdown` is that
/// project's about text.
pub fn setup_projects(terminal_state: &mut TerminalState, markdown: &String)
    requires
        old(terminal_state).projects@.len() > 0,
    ensures
        is_projects_screen(*final(terminal_state), markdown@, 0, 0, false),
        final(terminal_state).wf(),
        final(terminal_state).projects == old(terminal_state).projects,
        final(terminal_state).line_buffer == old(terminal_state).line_buffer,
{
    let cell_project_panels = build_project_panels(markdown, &terminal_state.projects, 0, 0, false);
    match write_cell_panels_with_border(cell_project_panels.as_slice(), TERM_WIDTH, TERM_HEIGHT) {
        Ok(grid) => {
            terminal_state.cell_buffer = grid;
        },
        Err(_) => {},
    }
    terminal_state.sub_state = TermSubState::Projects {
        selected_project_index: 0,
        project_about_scroll: 0,
        main_focus: false,
        cell_panels: cell_project_panels,
    };
}

/// Redraws the projects screen for the current selection, scroll and
/// focus; `markdown` is the selected project's about text.
pub fn update_project_buffer(terminal_state: &mut TerminalState, markdown: &String)
    requires
        old(terminal_state).sub_state matches TermSubState::Projects { selected_project_index, .. }
            && selected_project_index < old(terminal_state).projects@.len(),
    ensures
        old(terminal_state).sub_state matches TermSubState::Projects {
            selected_project_index,
            project_about_scroll,
            main_focus,
            ..
        } && is_projects_screen(*final(terminal_state), markdown@, selected_project_index, project_about_scroll, main_focus),
        final(terminal_state).wf(),
        final(terminal_state).projects == old(terminal_state).projects,
        final(terminal_state).line_buffer == old(terminal_state).line_buffer,
{
    if let TermSubState::Projects { selected_project_index, project_about_scroll, main_focus, .. } = terminal_state.sub_state {
        let cell_panels = build_project_panels(
            markdown,
            &terminal_state.projects,
            selected_project_index,
            project_about_scroll,
            main_focus,
        );
        match write_cell_panels_with_border(cell_panels.as_slice(), TERM_WIDTH, TERM_HEIGHT) {
            Ok(grid) => {
                terminal_state.cell_buffer = grid;
            },
            Err(_) => {},
        }
        terminal_state.sub_state = TermSubState::Projects {
            selected_project_index,
            project_about_scroll,
            main_focus,
            cell_panels,
        };
    }
}

} // verus!
