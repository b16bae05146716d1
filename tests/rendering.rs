use camterm::markdown_renderer::{lexer, render_markdown, Token};
use camterm::models::{Cell, CellPanel, Color, FontType};

fn chars(s: &str) -> Vec<char> {
    s.chars().collect()
}

fn row_text(row: &[Cell]) -> String {
    row.iter().map(|c| c.char).collect()
}

fn render(text: &str, width: usize) -> CellPanel {
    render_markdown(&text.to_string(), width, 5)
}

#[test]
fn markdown_title_and_bold() {
    let panel = render("# Title\nHello **world**", 20);
    assert_eq!(panel.cells.len(), 2);
    assert_eq!(row_text(&panel.cells[0]), "Title");
    for cell in panel.cells[0].iter() {
        assert_eq!(cell.foreground_color, Color::White);
        assert_eq!(cell.background_color, Some(Color::DarkGreen));
        assert_eq!(cell.font_type, FontType::ResumeDefault);
    }
    assert_eq!(row_text(&panel.cells[1]), "Hello world");
    for (i, cell) in panel.cells[1].iter().enumerate() {
        let expected = if i >= 6 { FontType::ResumeBold } else { FontType::ResumeDefault };
        assert_eq!(cell.font_type, expected);
        assert_eq!(cell.foreground_color, Color::Green);
        assert_eq!(cell.background_color, None);
    }
}

#[test]
fn word_breaks_before_overflow() {
    let width = 10;
    let mut panel = render("abcdef hello", width);
    assert_eq!(panel.cells.len(), 2);
    assert_eq!(row_text(&panel.cells[0]), "abcdef ");
    assert_eq!(panel.cells[0].len(), width - 3);
    assert_eq!(row_text(&panel.cells[1]), "hello");
    panel.fit_buffer();
    assert_eq!(row_text(&panel.fitted_buffer[0]), "abcdef    ");
    for cell in panel.fitted_buffer[0][7..].iter() {
        assert_eq!(*cell, Cell::default());
    }
}

#[test]
fn long_word_is_cut_at_width() {
    let panel = render("abcdefghij", 4);
    let rows: Vec<String> = panel.cells.iter().map(|r| row_text(r)).collect();
    assert_eq!(rows, vec!["", "abcd", "efgh", "ij"]);
}

#[test]
fn lone_asterisk_is_literal() {
    let panel = render("a *b c", 20);
    assert_eq!(panel.cells.len(), 1);
    assert_eq!(row_text(&panel.cells[0]), "a *b c");
}

#[test]
fn asterisks_make_italic() {
    let panel = render("*x* y", 20);
    assert_eq!(row_text(&panel.cells[0]), "x y");
    assert_eq!(panel.cells[0][0].font_type, FontType::ResumeItalic);
    assert_eq!(panel.cells[0][2].font_type, FontType::ResumeDefault);
}

#[test]
fn bold_italic_combination() {
    let panel = render("***z*** w", 20);
    assert_eq!(row_text(&panel.cells[0]), "z w");
    assert_eq!(panel.cells[0][0].font_type, FontType::ResumeItalicBold);
}

#[test]
fn escaped_marker_stays_in_word() {
    let panel = render("a\\#b c", 20);
    assert_eq!(row_text(&panel.cells[0]), "a\\#b c");
}

#[test]
fn crlf_ends_a_line() {
    let panel = render("ab\r\ncd", 20);
    let rows: Vec<String> = panel.cells.iter().map(|r| row_text(r)).collect();
    assert_eq!(rows, vec!["ab", "cd"]);
}

#[test]
fn hash_inside_line_is_literal() {
    let panel = render("a # b", 20);
    assert_eq!(row_text(&panel.cells[0]), "a # b");
    assert_eq!(panel.cells[0][2].background_color, None);
}

#[test]
fn header_ends_at_newline() {
    let panel = render("# H\nx\n", 20);
    assert_eq!(panel.cells.len(), 2);
    assert_eq!(panel.cells[1][0].foreground_color, Color::Green);
    assert_eq!(panel.cells[1][0].background_color, None);
}

#[test]
fn empty_text_renders_nothing() {
    let panel = render("", 20);
    assert_eq!(panel.cells.len(), 0);
    assert_eq!(panel.width, 20);
    assert_eq!(panel.height, 5);
}

#[test]
fn lexer_tokens() {
    let tokens = lexer(&chars("# a **b**\nc*"));
    assert_eq!(
        tokens,
        vec![
            Token::PoundSign,
            Token::Space,
            Token::Word { start: 2, end: 3 },
            Token::Space,
            Token::DoubleAsterisk,
            Token::Word { start: 6, end: 7 },
            Token::DoubleAsterisk,
            Token::NewLine,
            Token::Word { start: 10, end: 11 },
            Token::Asterisk,
        ]
    );
}

#[test]
fn lexer_keeps_last_character() {
    let tokens = lexer(&chars("a bc"));
    assert_eq!(tokens, vec![Token::Word { start: 0, end: 1 }, Token::Space, Token::Word { start: 2, end: 4 }]);
}

#[test]
fn tokens_written_back() {
    let source = chars("# a **bc**");
    let text: String = lexer(&source).iter().flat_map(|t| t.to_chars(&source)).collect();
    assert_eq!(text, "# a **bc**");
    assert_eq!(Token::DoubleAsterisk.to_chars(&source), vec!['*', '*']);
    assert_eq!(Token::Word { start: 6, end: 8 }.to_chars(&source), vec!['b', 'c']);
}
