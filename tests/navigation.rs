use camterm::loading_screen::{advance_file, setup_loading_state, spinner_tick, LoadingProgress, FILES_TO_LOAD};
use camterm::models::{Cell, Color, ProjectInfo, TermSubState, TerminalState};
use camterm::navigation::{handle_input, setup_main_state, NavAction};
use camterm::projects::{setup_projects, update_project_buffer};
use camterm::resume::{setup_resume, update_resume_buffer};
use camterm::terminal_templates::{decimal_chars, generate_highlight_box, CellRect, BALLOON_SPINNER_CHARS, LOAD_TEMPLATE};
use camterm::ui::UiContext;
use camterm::utils::{highlight_cells, reset_all_highlights};

fn row_text(row: &[Cell]) -> String {
    row.iter().map(|c| c.char).collect()
}

fn up() -> UiContext {
    UiContext { up_pressed: true, ..Default::default() }
}

fn down() -> UiContext {
    UiContext { down_pressed: true, ..Default::default() }
}

fn only(f: fn(&mut UiContext)) -> UiContext {
    let mut ui = UiContext::default();
    f(&mut ui);
    ui
}

fn menu_index(state: &TerminalState) -> usize {
    match state.sub_state {
        TermSubState::Main { index } => index,
        _ => panic!("not on the main menu"),
    }
}

fn project(name: &str) -> ProjectInfo {
    ProjectInfo {
        name: name.to_string(),
        ascii_art: vec![format!("<{}>", name)],
        markdown: format!("{}.md", name),
        url: name.to_string(),
    }
}

fn main_state() -> TerminalState {
    let mut state = TerminalState::default();
    setup_main_state(&mut state);
    state
}

#[test]
fn highlight_boxes_of_the_menu() {
    assert_eq!(generate_highlight_box(1), Some(CellRect { x: 16, y: 5, w: 10, h: 1 }));
    assert_eq!(generate_highlight_box(2), Some(CellRect { x: 16, y: 6, w: 8, h: 1 }));
    assert_eq!(generate_highlight_box(3), Some(CellRect { x: 16, y: 7, w: 9, h: 1 }));
    assert_eq!(generate_highlight_box(4), None);
    assert_eq!(generate_highlight_box(0), None);
}

#[test]
fn decimal_digits() {
    assert_eq!(decimal_chars(0), vec!['0']);
    assert_eq!(decimal_chars(7), vec!['7']);
    assert_eq!(decimal_chars(120), vec!['1', '2', '0']);
}

#[test]
fn main_menu_starts_on_first_entry() {
    let state = main_state();
    assert_eq!(menu_index(&state), 0);
    assert_eq!(state.cell_buffer.len(), 11);
    assert_eq!(state.line_buffer[0], "Welcome to CAMBUCHA.DEV (TM) TermLink");
    assert_eq!(row_text(&state.cell_buffer[5]), "|               1.Projects                 |");
    for x in 16..26 {
        assert_eq!(state.cell_buffer[5][x].background_color, Some(Color::White));
    }
    assert_eq!(state.cell_buffer[5][15].background_color, None);
    assert_eq!(state.cell_buffer[5][26].background_color, None);
    assert_eq!(state.cell_buffer[6][16].background_color, None);
}

#[test]
fn menu_up_from_first_wraps_to_last() {
    let mut state = main_state();
    assert_eq!(handle_input(&mut state, &up()), NavAction::Idle);
    assert_eq!(menu_index(&state), 2);
    assert_eq!(state.cell_buffer[7][16].background_color, Some(Color::White));
    assert_eq!(state.cell_buffer[5][16].background_color, None);
}

#[test]
fn menu_down_from_last_wraps_to_first() {
    let mut state = main_state();
    handle_input(&mut state, &up());
    assert_eq!(menu_index(&state), 2);
    handle_input(&mut state, &down());
    assert_eq!(menu_index(&state), 0);
    assert_eq!(state.cell_buffer[5][16].background_color, Some(Color::White));
    assert_eq!(state.cell_buffer[7][16].background_color, None);
}

#[test]
fn menu_down_wins_over_up() {
    let mut state = main_state();
    let both = UiContext { up_pressed: true, down_pressed: true, ..Default::default() };
    handle_input(&mut state, &both);
    assert_eq!(menu_index(&state), 1);
}

#[test]
fn menu_confirm_asks_for_screen() {
    let enter = only(|u| u.enter_pressed = true);
    let mut state = main_state();
    assert_eq!(handle_input(&mut state, &enter), NavAction::EnterProjects);
    handle_input(&mut state, &down());
    assert_eq!(handle_input(&mut state, &enter), NavAction::EnterResume);
    handle_input(&mut state, &down());
    assert_eq!(handle_input(&mut state, &enter), NavAction::OpenContact);
    assert_eq!(menu_index(&state), 2);
}

#[test]
fn no_input_changes_nothing() {
    let mut state = main_state();
    let before = state.cell_buffer.clone();
    assert_eq!(handle_input(&mut state, &UiContext::default()), NavAction::Idle);
    assert_eq!(state.cell_buffer, before);
    assert_eq!(menu_index(&state), 0);
}

#[test]
fn back_on_main_menu_is_ignored() {
    let mut state = main_state();
    let back = only(|u| u.back_pressed = true);
    assert_eq!(handle_input(&mut state, &back), NavAction::Idle);
    assert_eq!(menu_index(&state), 0);
}

fn projects_state(n: usize) -> TerminalState {
    let mut state = main_state();
    state.projects = (0..n).map(|i| project(&format!("proj{}", i))).collect();
    setup_projects(&mut state, &"# About\nfirst project".to_string());
    state
}

fn selection(state: &TerminalState) -> (usize, usize, bool) {
    match &state.sub_state {
        TermSubState::Projects { selected_project_index, project_about_scroll, main_focus, .. } => {
            (*selected_project_index, *project_about_scroll, *main_focus)
        },
        _ => panic!("not on the projects screen"),
    }
}

#[test]
fn projects_screen_layout() {
    let state = projects_state(3);
    assert_eq!(selection(&state), (0, 0, false));
    assert_eq!(state.cell_buffer.len(), 20);
    assert!(state.cell_buffer.iter().all(|r| r.len() == 80));
    assert_eq!(state.cell_buffer[0][0].char, '┏');
    assert_eq!(state.cell_buffer[0][59].char, '┳');
    assert_eq!(state.cell_buffer[7][59].char, '┣');
    assert_eq!(state.cell_buffer[19][59].char, '┻');
    assert_eq!(row_text(&state.cell_buffer[1][1..6]), "About");
    assert_eq!(row_text(&state.cell_buffer[1][60..66]), "<proj0");
    assert_eq!(row_text(&state.cell_buffer[8][60..67]), "> proj0");
    assert_eq!(state.cell_buffer[8][62].background_color, Some(Color::White));
    assert_eq!(state.cell_buffer[8][60].background_color, None);
    assert_eq!(row_text(&state.cell_buffer[9][60..65]), "proj1");
    assert_eq!(state.cell_buffer[7][70].foreground_color, Color::White);
}

#[test]
fn project_list_up_wraps_to_last() {
    let mut state = projects_state(3);
    assert_eq!(handle_input(&mut state, &up()), NavAction::RefreshProjects);
    assert_eq!(selection(&state), (2, 0, false));
    update_project_buffer(&mut state, &"third".to_string());
    assert_eq!(row_text(&state.cell_buffer[10][60..67]), "> proj2");
    assert_eq!(row_text(&state.cell_buffer[8][60..65]), "proj0");
    assert_eq!(row_text(&state.cell_buffer[1][60..66]), "<proj2");
    assert_eq!(row_text(&state.cell_buffer[1][1..6]), "third");
}

#[test]
fn project_list_down_wraps_to_first() {
    let mut state = projects_state(2);
    handle_input(&mut state, &down());
    assert_eq!(selection(&state).0, 1);
    handle_input(&mut state, &down());
    assert_eq!(selection(&state).0, 0);
}

#[test]
fn about_focus_scrolls_and_saturates() {
    let mut state = projects_state(2);
    let left = only(|u| u.left_pressed = true);
    handle_input(&mut state, &left);
    assert_eq!(selection(&state), (0, 0, true));
    update_project_buffer(&mut state, &"a".to_string());
    assert_eq!(state.cell_buffer[0][10].foreground_color, Color::White);
    assert_eq!(state.cell_buffer[7][70].foreground_color, Color::Green);
    handle_input(&mut state, &up());
    assert_eq!(selection(&state), (0, 0, true));
    handle_input(&mut state, &down());
    handle_input(&mut state, &down());
    assert_eq!(selection(&state), (0, 2, true));
    handle_input(&mut state, &up());
    assert_eq!(selection(&state), (0, 1, true));
    let right = only(|u| u.right_pressed = true);
    handle_input(&mut state, &right);
    assert_eq!(selection(&state), (0, 1, false));
}

#[test]
fn back_from_projects_returns_to_menu() {
    let mut state = projects_state(2);
    let back = only(|u| u.back_pressed = true);
    assert_eq!(handle_input(&mut state, &back), NavAction::Idle);
    assert_eq!(menu_index(&state), 0);
    assert_eq!(state.cell_buffer.len(), 11);
    assert_eq!(state.projects.len(), 2);
}

fn resume_text() -> String {
    (0..30).map(|i| format!("line {}\n", i)).collect()
}

fn resume_index(state: &TerminalState) -> usize {
    match &state.sub_state {
        TermSubState::Resume(panel) => panel.index,
        _ => panic!("not on the resume screen"),
    }
}

#[test]
fn resume_scrolls_by_three_and_clamps() {
    let mut state = main_state();
    setup_resume(&mut state, &resume_text());
    assert_eq!(resume_index(&state), 0);
    assert_eq!(state.cell_buffer.len(), 20);
    assert_eq!(row_text(&state.cell_buffer[0][..6]), "line 0");
    handle_input(&mut state, &down());
    assert_eq!(resume_index(&state), 3);
    assert_eq!(row_text(&state.cell_buffer[0][..6]), "line 3");
    handle_input(&mut state, &down());
    handle_input(&mut state, &down());
    assert_eq!(resume_index(&state), 9);
    handle_input(&mut state, &down());
    assert_eq!(resume_index(&state), 9);
    assert_eq!(row_text(&state.cell_buffer[19][..7]), "line 28");
    handle_input(&mut state, &up());
    assert_eq!(resume_index(&state), 6);
    update_resume_buffer(&mut state);
    assert_eq!(row_text(&state.cell_buffer[0][..6]), "line 6");
}

#[test]
fn short_resume_does_not_scroll() {
    let mut state = main_state();
    setup_resume(&mut state, &"short".to_string());
    handle_input(&mut state, &down());
    assert_eq!(resume_index(&state), 0);
    let back = only(|u| u.back_pressed = true);
    handle_input(&mut state, &back);
    assert_eq!(menu_index(&state), 0);
}

#[test]
fn highlight_is_clipped_to_grid() {
    let mut state = main_state();
    reset_all_highlights(&mut state);
    assert!(state.cell_buffer.iter().all(|r| r.iter().all(|c| c.background_color.is_none())));
    highlight_cells(&CellRect { x: 40, y: 9, w: 10, h: 5 }, &mut state, Color::DarkGreen);
    assert_eq!(state.cell_buffer[10][43].background_color, Some(Color::DarkGreen));
    assert_eq!(state.cell_buffer[9][40].background_color, Some(Color::DarkGreen));
    assert_eq!(state.cell_buffer[8][40].background_color, None);
    assert_eq!(state.cell_buffer[9][39].background_color, None);
}

#[test]
fn loading_screen_spinner_and_files() {
    let mut state = TerminalState::default();
    let (x, y) = setup_loading_state(&mut state, FILES_TO_LOAD[0]);
    let width = LOAD_TEMPLATE[0].chars().count();
    assert!(matches!(state.sub_state, TermSubState::Load));
    assert_eq!(state.cell_buffer.len(), 12);
    assert_eq!((x, y), ((width - 9) / 2, 10));
    assert_eq!(row_text(&state.cell_buffer[10][x..x + 9]), ". Loading");
    assert!(row_text(&state.cell_buffer[11]).ends_with("fonts/TerminalFont.ttf"));
    let mut progress = LoadingProgress { file_loading_index: 0, animation_step: 0, spinner_x: x, spinner_y: y };
    for step in 1..7 {
        assert!(!spinner_tick(&mut state, &mut progress));
        assert_eq!(state.cell_buffer[y][x].char, BALLOON_SPINNER_CHARS[step]);
    }
    assert!(spinner_tick(&mut state, &mut progress));
    assert_eq!(state.cell_buffer[y][x].char, '.');
    assert_eq!(advance_file(&mut state, &mut progress), Some(1));
    assert_eq!(state.cell_buffer.len(), 12);
    assert!(row_text(&state.cell_buffer[11]).ends_with("fonts/UbuntuMonoNerdFontMono-Bold.ttf"));
    progress.file_loading_index = FILES_TO_LOAD.len() - 1;
    assert_eq!(advance_file(&mut state, &mut progress), None);
    assert_eq!(progress.file_loading_index, FILES_TO_LOAD.len());
}

#[test]
fn ui_context_reset_clears_events() {
    let mut ui = UiContext {
        up_pressed: true,
        down_pressed: true,
        right_pressed: true,
        left_pressed: true,
        enter_pressed: true,
        back_pressed: true,
    };
    ui.reset();
    assert!(!(ui.up_pressed || ui.down_pressed || ui.right_pressed || ui.left_pressed || ui.enter_pressed || ui.back_pressed));
}
