use vstd::prelude::*;
use crate::markdown_renderer::{render_markdown, render_rows};
use crate::models::{blank_line, grid_view, paste, Cell, CellPanel, TermSubState, TerminalState};
use crate::utils::blank_grid;

verus! {

pub const RESUME_W: usize = 80;
pub const RESUME_H: usize = 20;

/// The resume panel holds the rendered text, fitted, full screen, unscrolled.
pub open spec fn resume_panel_ok(p: CellPanel, text: Seq<char>) -> bool {
    &&& grid_view(p.cells@) == render_rows(text, RESUME_W as nat)
    &&& p.is_fitted()
    &&& p.width == RESUME_W
    &&& p.height == RESUME_H
    &&& p.offset_x == 0
    &&& p.offset_y == 0
    &&& p.index == 0
    &&& p.box_color.is_none()
}

/// A blank grid of `w` by `h` cells.
pub fn blank_cells(w: usize, h: usize) -> (g: Vec<Vec<Cell>>)
    ensures
        grid_view(g@) == blank_grid(w as nat, h as nat),
{
    let mut g: Vec<Vec<Cell>> = Vec::new();
    let mut y: usize = 0;
    while y < h
        invariant
            y <= h,
            grid_view(g@) == blank_grid(w as nat, y as nat),
        decreases h - y,
    {
        let ghost before = grid_view(g@);
        let line = blank_line(w);
        g.push(line);
        proof {
            assert(grid_view(g@) =~= before.push(line@));
            assert(grid_view(g@) =~= blank_grid(w as nat, y as nat + 1));
        }
        y = y + 1;
    }
    g
}

/// Enters the resume screen: renders `mark_down_text` full screen and shows
/// its top.
pub fn setup_resume(terminal_state: &mut TerminalState, mark_down_text: &String)
    ensures
        final(terminal_state).sub_state matches TermSubState::Resume(p) && resume_panel_ok(p, mark_down_text@)
            && grid_view(final(terminal_state).cell_buffer@) == paste(blank_grid(RESUME_W as nat, RESUME_H as nat),
            p.shown_rows(), 0, 0),
        final(terminal_state).wf(),
        final(terminal_state).projects == old(terminal_state).projects,
        final(terminal_state).line_buffer == old(terminal_state).line_buffer,
{
    terminal_state.cell_buffer = blank_cells(RESUME_W, RESUME_H);
    let mut markdown_panel = render_markdown(mark_down_text, RESUME_W, RESUME_H);
    markdown_panel.fit_buffer();
    proof {
        crate::models::lemma_fitted_rows(markdown_panel);
        assert(markdown_panel.fits_always(grid_view(terminal_state.cell_buffer@)));
        crate::models::lemma_fits_always(markdown_panel, grid_view(terminal_state.cell_buffer@));
    }
    markdown_panel.write_to_buffer(&mut terminal_state.cell_buffer);
    proof {
        crate::models::lemma_paste_keeps_shape(blank_grid(RESUME_W as nat, RESUME_H as nat), markdown_panel.shown_rows(), 0, 0);
    }
    terminal_state.sub_state = TermSubState::Resume(markdown_panel);
}

/// Redraws the resume panel at its current scroll position.
pub fn update_resume_buffer(terminal_state: &mut TerminalState)
    requires
        old(terminal_state).wf(),
    ensures
        final(terminal_state).wf(),
        old(terminal_state).sub_state matches TermSubState::Resume(p) ==> grid_view(final(terminal_state).cell_buffer@)
            == paste(grid_view(old(terminal_state).cell_buffer@), p.shown_rows(), p.offset_x as int, p.offset_y as int),
        !(old(terminal_state).sub_state is Resume) ==> final(terminal_state).cell_buffer == old(terminal_state).cell_buffer,
        *final(terminal_state) == (TerminalState { cell_buffer: final(terminal_state).cell_buffer, ..*old(terminal_state) }),
{
    if let TermSubState::Resume(markdown_panel) = &terminal_state.sub_state {
        proof {
            crate::models::lemma_fits_always(*markdown_panel, grid_view(terminal_state.cell_buffer@));
        }
        markdown_panel.write_to_buffer(&mut terminal_state.cell_buffer);
        proof {
            crate::models::lemma_paste_keeps_shape(grid_view(old(terminal_state).cell_buffer@), markdown_panel.shown_rows(),
                markdown_panel.offset_x as int, markdown_panel.offset_y as int);
        }
    }
}

} // verus!
