use vstd::prelude::*;
use crate::models::{cells_of_chars, grid_view, paste, Cell, CellPanel, Color, TermSubState, TerminalState};
use crate::terminal_templates::{generate_highlight_box, highlight_box_spec, template_view, MAIN_TEMPLATE};
use crate::ui::UiContext;
use crate::utils::{generate_cell_line, highlight_cells, highlighted, reset_all_highlights, unhighlighted};

verus! {

/// What the caller has to do after an input event was handled.
#[derive(Clone, Copy, Debug, PartialEq, Eq, Structural)]
pub enum NavAction {
    /// Nothing: the state is up to date.
    Idle,
    /// Enter the projects screen (`setup_projects`, with the first project's markdown).
    EnterProjects,
    /// Enter the resume screen (`setup_resume`, with the resume's markdown).
    EnterResume,
    /// Open the contact link.
    OpenContact,
    /// Redraw the projects screen (`update_project_buffer`, with the selected project's markdown).
    RefreshProjects,
}

/// Some event is pending.
pub open spec fn any_input(input: UiContext) -> bool {
    input.down_pressed || input.up_pressed || input.left_pressed || input.right_pressed || input.enter_pressed
        || input.back_pressed
}

/// The main menu's text lines.
pub open spec fn main_lines() -> Seq<Seq<char>> {
    template_view(MAIN_TEMPLATE@)
}

/// The main menu's cells, before any highlight.
pub open spec fn main_cells() -> Seq<Seq<Cell>> {
    main_lines().map_values(|l: Seq<char>| cells_of_chars(l))
}

/// `grid` with the box over menu entry `index` (counted from zero) tinted.
pub open spec fn menu_grid(grid: Seq<Seq<Cell>>, index: nat) -> Seq<Seq<Cell>> {
    match highlight_box_spec(main_lines(), index + 1) {
        Some(r) => highlighted(grid, r, Color::White),
        None => grid,
    }
}

/// The menu entry selected after `input`: Down moves forward and Up moves
/// back, both wrapping over the three entries; Down wins when both are pressed.
pub open spec fn menu_after(index: nat, input: UiContext) -> nat {
    if input.down_pressed {
        ((index + 1) % 3) as nat
    } else if input.up_pressed {
        if index == 0 { 2 } else { (index - 1) as nat }
    } else {
        index
    }
}

/// The state shows the main menu with its first entry selected.
pub open spec fn is_main_screen(ts: TerminalState) -> bool {
    &&& ts.sub_state == TermSubState::Main { index: 0 }
    &&& ts.line_buffer@.map_values(|s: String| s@) == main_lines()
    &&& grid_view(ts.cell_buffer@) == menu_grid(main_cells(), 0)
}

/// Selection and scroll of the projects screen after `input`. With the list
/// in focus Up/Down move the selection, wrapping over `count` projects; with
/// the about panel in focus they scroll it, never below zero. Left focuses the
/// about panel, Right the list; Right wins when both are pressed.
pub open spec fn project_nav(sel: nat, scroll: nat, focus: bool, count: nat, input: UiContext) -> (nat, nat, bool) {
    let sel1: nat = if !focus && count > 0 {
        let a: nat = if input.up_pressed { if sel == 0 { (count - 1) as nat } else { (sel - 1) as nat } } else { sel };
        if input.down_pressed { ((a + 1) % count) as nat } else { a }
    } else {
        sel
    };
    let scroll1: nat = if focus {
        let a: nat = if input.up_pressed { if scroll == 0 { 0 } else { (scroll - 1) as nat } } else { scroll };
        if input.down_pressed && a < usize::MAX { a + 1 } else { a }
    } else {
        scroll
    };
    let focus1 = if input.right_pressed { false } else if input.left_pressed { true } else { focus };
    (sel1, scroll1, focus1)
}

/// The last scroll index of a full-screen panel: its bottom edge meets the
/// end of the content, and it is never below zero.
pub open spec fn max_scroll(p: CellPanel) -> nat {
    if p.fitted_buffer@.len() >= p.height + 1 { (p.fitted_buffer@.len() - p.height - 1) as nat } else { 0 }
}

/// The scroll index after `input`: three rows per press, Up stopping at
/// zero and Down at `max_scroll`.
pub open spec fn resume_scroll(index: nat, max: nat, input: UiContext) -> nat {
    let a: nat = if input.up_pressed && index != 0 { if index >= 3 { (index - 3) as nat } else { 0 } } else { index };
    if input.down_pressed && a != max { if a + 3 < max { a + 3 } else { max } } else { a }
}

/// Shows the main menu with its first entry selected.
pub fn setup_main_state(terminal_state: &mut TerminalState)
    ensures
        is_main_screen(*final(terminal_state)),
        final(terminal_state).wf(),
        final(terminal_state).projects == old(terminal_state).projects,
{
    terminal_state.sub_state = TermSubState::Main { index: 0 };
    let template = MAIN_TEMPLATE;
    let mut cells: Vec<Vec<Cell>> = Vec::new();
    let mut lines: Vec<String> = Vec::new();
    let mut i: usize = 0;
    while i < template.len()
        invariant
            i <= template@.len(),
            template@ == MAIN_TEMPLATE@,
            grid_view(cells@) == main_cells().take(i as int),
            lines@.map_values(|s: String| s@) == main_lines().take(i as int),
        decreases template@.len() - i,
    {
        let ghost gb = grid_view(cells@);
        let ghost lb = lines@.map_values(|s: String| s@);
        let line = generate_cell_line(template[i]);
        let text = template[i].to_owned();
        cells.push(line);
        lines.push(text);
        proof {
            assert(grid_view(cells@) =~= gb.push(line@));
            assert(grid_view(cells@) =~= main_cells().take(i + 1));
            assert(lines@.map_values(|s: String| s@) =~= lb.push(text@));
            assert(lines@.map_values(|s: String| s@) =~= main_lines().take(i + 1));
        }
        i = i + 1;
    }
    proof {
        assert(main_cells().take(i as int) =~= main_cells());
        assert(main_lines().take(i as int) =~= main_lines());
    }
    terminal_state.cell_buffer = cells;
    terminal_state.line_buffer = lines;
    match generate_highlight_box(1) {
        Some(high_light_box) => highlight_cells(&high_light_box, terminal_state, Color::White),
        None => {},
    }
}

/// Moves the main-menu selection to `new_index` and redraws its highlight.
fn select_menu_entry(terminal_state: &mut TerminalState, new_index: usize)
    requires
        new_index < usize::MAX,
    ensures
        final(terminal_state).sub_state == (TermSubState::Main { index: new_index }),
        grid_view(final(terminal_state).cell_buffer@) == menu_grid(unhighlighted(grid_view(old(terminal_state).cell_buffer@)),
            new_index as nat),
        final(terminal_state).projects == old(terminal_state).projects,
        final(terminal_state).line_buffer == old(terminal_state).line_buffer,
{
    terminal_state.sub_state = TermSubState::Main { index: new_index };
    reset_all_highlights(terminal_state);
    match generate_highlight_box(new_index + 1) {
        Some(highlight_box) => highlight_cells(&highlight_box, terminal_state, Color::White),
        None => {},
    }
}

/// How one frame's input changes the state, when some event is pending.
/// On the main menu Up/Down move the selection and redraw its highlight,
/// and Confirm asks for the selected screen. On the projects screen Back
/// returns to the menu and any other event updates selection, scroll and
/// focus and asks for a redraw. On the resume screen Back returns to the
/// menu and Up/Down scroll and redraw. Other screens ignore input.
pub open spec fn input_handled(old: TerminalState, new: TerminalState, input: UiContext, action: NavAction) -> bool {
    match old.sub_state {
        TermSubState::Main { index } => if input.down_pressed || input.up_pressed {
            &&& new.sub_state == TermSubState::Main { index: menu_after(index as nat, input) as usize }
            &&& grid_view(new.cell_buffer@) == menu_grid(
                unhighlighted(grid_view(old.cell_buffer@)), menu_after(index as nat, input))
            &&& new.line_buffer == old.line_buffer
            &&& action == NavAction::Idle
        } else {
            &&& new == old
            &&& action == if !input.enter_pressed {
                NavAction::Idle
            } else if index == 0 {
                NavAction::EnterProjects
            } else if index == 1 {
                NavAction::EnterResume
            } else if index == 2 {
                NavAction::OpenContact
            } else {
                NavAction::Idle
            }
        },
        TermSubState::Projects { selected_project_index, project_about_scroll, main_focus, cell_panels } => if input.back_pressed {
            is_main_screen(new) && action == NavAction::Idle
        } else {
            let next = project_nav(selected_project_index as nat, project_about_scroll as nat, main_focus,
                old.projects@.len(), input);
            &&& new.sub_state == TermSubState::Projects {
                selected_project_index: next.0 as usize,
                project_about_scroll: next.1 as usize,
                main_focus: next.2,
                cell_panels,
            }
            &&& new.cell_buffer == old.cell_buffer
            &&& new.line_buffer == old.line_buffer
            &&& action == NavAction::RefreshProjects
        },
        TermSubState::Resume(p) => if input.back_pressed {
            is_main_screen(new) && action == NavAction::Idle
        } else {
            let q = CellPanel { index: resume_scroll(p.index as nat, max_scroll(p), input) as usize, ..p };
            &&& new.sub_state == TermSubState::Resume(q)
            &&& grid_view(new.cell_buffer@) == paste(grid_view(old.cell_buffer@),
                q.shown_rows(), q.offset_x as int, q.offset_y as int)
            &&& new.line_buffer == old.line_buffer
            &&& action == NavAction::Idle
        },
        _ => new == old && action == NavAction::Idle,
    }
}

/// Handles one frame's input events. Screen changes that need content from
/// outside (markdown text, the contact link) are returned as an action.
pub fn handle_input(terminal_state: &mut TerminalState, ui_context: &UiContext) -> (action: NavAction)
    requires
        old(terminal_state).wf(),
    ensures
        final(terminal_state).wf(),
        final(terminal_state).projects == old(terminal_state).projects,
        !any_input(*ui_context) ==> *final(terminal_state) == *old(terminal_state) && action == NavAction::Idle,
        any_input(*ui_context) ==> input_handled(*old(terminal_state), *final(terminal_state), *ui_context, action),
{
    let down_input = ui_context.down_pressed;
    let up_input = ui_context.up_pressed;
    let left_pressed = ui_context.left_pressed;
    let right_pressed = ui_context.right_pressed;
    let enter_pressed = ui_context.enter_pressed;
    let back_pressed = ui_context.back_pressed;
    if !(down_input || up_input || left_pressed || right_pressed || enter_pressed || back_pressed) {
        return NavAction::Idle;
    }
    let project_count = terminal_state.projects.len();
    let mut sub_state = TermSubState::Load;
    std::mem::swap(&mut sub_state, &mut terminal_state.sub_state);
    match sub_state {
        TermSubState::Main { index } => {
            if down_input || up_input {
                let new_index = if down_input {
                    (index % 3 + 1) % 3
                } else if index == 0 {
                    2
                } else {
                    index - 1
                };
                proof {
                    assert((index % 3 + 1) % 3 == (index + 1) % 3) by (nonlinear_arith);
                    assert(new_index == menu_after(index as nat, *ui_context));
                }
                select_menu_entry(terminal_state, new_index);
                NavAction::Idle
            } else {
                terminal_state.sub_state = TermSubState::Main { index };
                if !enter_pressed {
                    NavAction::Idle
                } else if index == 0 {
                    NavAction::EnterProjects
                } else if index == 1 {
                    NavAction::EnterResume
                } else if index == 2 {
                    NavAction::OpenContact
                } else {
                    NavAction::Idle
                }
            }
        },
        TermSubState::Projects { selected_project_index, project_about_scroll, main_focus, cell_panels } => {
            if back_pressed {
                setup_main_state(terminal_state);
                return NavAction::Idle;
            }
            let mut selected = selected_project_index;
            let mut scroll = project_about_scroll;
            if !main_focus {
                if project_count > 0 {
                    if up_input {
                        selected = crate::utils::overflow_sub(&selected, project_count);
                    }
                    if down_input {
                        proof {
                            let a = selected as int;
                            let c = project_count as int;
                            assert((a % c + 1) % c == (a + 1) % c) by (nonlinear_arith)
                                requires c > 0;
                        }
                        selected = (selected % project_count + 1) % project_count;
                    }
                }
            } else {
                if up_input {
                    scroll = if scroll == 0 { 0 } else { scroll - 1 };
                }
                if down_input && scroll < usize::MAX {
                    scroll = scroll + 1;
                }
            }
            let focus = if right_pressed { false } else if left_pressed { true } else { main_focus };
            terminal_state.sub_state = TermSubState::Projects {
                selected_project_index: selected,
                project_about_scroll: scroll,
                main_focus: focus,
                cell_panels,
            };
            NavAction::RefreshProjects
        },
        TermSubState::Resume(resume_panel) => {
            if back_pressed {
                setup_main_state(terminal_state);
                return NavAction::Idle;
            }
            let mut panel = resume_panel;
            let n = panel.fitted_buffer.len();
            let max = if n >= panel.height && n - panel.height >= 1 { n - panel.height - 1 } else { 0 };
            if up_input && panel.index != 0 {
                panel.index = if panel.index >= 3 { panel.index - 3 } else { 0 };
            }
            if down_input && panel.index != max {
                panel.index = if panel.index < max && max - panel.index > 3 { panel.index + 3 } else { max };
            }
            proof {
                crate::models::lemma_fits_always(panel, grid_view(terminal_state.cell_buffer@));
            }
            panel.write_to_buffer(&mut terminal_state.cell_buffer);
            proof {
                crate::models::lemma_paste_keeps_shape(grid_view(old(terminal_state).cell_buffer@), panel.shown_rows(),
                    panel.offset_x as int, panel.offset_y as int);
            }
            terminal_state.sub_state = TermSubState::Resume(panel);
            NavAction::Idle
        },
        other => {
            terminal_state.sub_state = other;
            NavAction::Idle
        },
    }
}


/// The main menu wraps around: Up from the first entry selects the last,
/// Down from the last selects the first.
pub proof fn lemma_menu_wraps(input: UiContext)
    ensures
        input.up_pressed && !input.down_pressed ==> menu_after(0, input) == 2,
        input.down_pressed ==> menu_after(2, input) == 0,
{
}

/// The project list wraps around: with `n` projects and the first one
/// selected, moving up selects the last.
pub proof fn lemma_project_list_wraps(n: nat, scroll: nat, input: UiContext)
    requires
        n > 0,
        input.up_pressed,
        !input.down_pressed,
    ensures
        project_nav(0, scroll, false, n, input).0 == n - 1,
{
}

} // verus!
