use rebicycler::readout::{can_wrap, DisplayTerminal, MultiPane, Pane};

#[test]
fn pane_fits_each_line_to_its_width() {
    let mut p = Pane::new(5, 2, "ab".to_string());
    p.add_line("hello world".to_string());
    assert_eq!(p.render(), "ab   \nhe...\n     ");
}

#[test]
fn cleared_pane_is_padded_with_blank_rows() {
    let mut p = Pane::new(4, 2, "t".to_string());
    p.add_line("x".to_string());
    p.clear();
    assert_eq!(p.render(), "t   \n    \n    ");
}

#[test]
fn pane_shows_every_line_beyond_its_rows() {
    let mut p = Pane::new(2, 1, "t".to_string());
    p.add_line("a".to_string());
    p.add_line("b".to_string());
    assert_eq!(p.render(), "t \na \nb ");
}

#[test]
fn wrapping_cuts_lines_at_the_width() {
    let mut p = Pane::new(3, 2, "t".to_string());
    p.add_line_wrapped("abcdefgh".to_string());
    assert_eq!(p.render(), "t  \nabc\ndef\ngh ");
}

#[test]
fn wrapping_drops_escape_sequences() {
    let mut p = Pane::new(5, 1, "t".to_string());
    p.add_line_wrapped("\u{1b}[31mred\u{1b}[0m".to_string());
    assert_eq!(p.render(), "t    \nred  ");
}

#[test]
fn wrapping_needs_a_width_and_clean_cuts() {
    assert!(can_wrap("abc", 2));
    assert!(can_wrap("", 0));
    assert!(!can_wrap("abc", 0));
    assert!(!can_wrap("é", 1));
    assert!(can_wrap("é", 2));
}

fn six_narrow_panes(rows: usize) -> MultiPane {
    let names = ["a", "b", "c", "d", "e", "f"].map(|n| (n.to_string(), 1usize));
    MultiPane::new(names, rows)
}

#[test]
fn table_draws_panes_side_by_side() {
    let m = six_narrow_panes(2);
    assert!(m.can_render());
    let cap = format!(" {} \n", "\u{2500}".repeat(25));
    let expected = format!("{cap} | a | b | c | d | e | f | \n |   |   |   |   |   |   | \n{cap}");
    assert_eq!(six_narrow_panes(1).render(), format!("{cap} | a | b | c | d | e | f | \n{cap}"));
    assert_eq!(m.render(), expected);
    assert_eq!(m.render_checked(), Some(expected));
}

#[test]
fn table_row_joins_cells() {
    let m = six_narrow_panes(1);
    let cells = ["1", "2", "3", "4", "5", "6"].map(|c| c.to_string());
    assert_eq!(m.pane_join(&cells), " | 1 | 2 | 3 | 4 | 5 | 6 | \n");
}

#[test]
fn lines_go_to_the_named_pane() {
    let mut m = six_narrow_panes(2);
    assert!(m.try_write_line_to_pane("c", "x".to_string(), false));
    assert!(!m.try_write_line_to_pane("zz", "x".to_string(), false));
    assert!(!m.try_write_line_to_pane("c", "é".to_string(), true));
    m.write_line_to_pane("a", "y".to_string(), false);
    let text = m.render();
    assert!(text.contains(" | a | b | c | d | e | f | \n | y |   | x |   |   |   | \n"));
    m.clear();
    assert!(m.render().contains(" |   |   |   |   |   |   | \n"));
}

#[test]
fn table_without_rows_reports_it() {
    let names = ["a", "b", "c", "d", "e", "f"].map(|n| (n.to_string(), 1usize));
    let m = MultiPane::new(names, 0);
    assert_eq!(m.render(), "content failed to render: no newlines in output");
}

#[test]
fn flushing_files_the_screen_and_empties_the_panes() {
    let mut d = DisplayTerminal::default();
    d.write_line_to_header("hello".to_string());
    d.write_line_to_footer("bye".to_string());
    assert!(d.try_write_line_to_pane("Errors", "oops".to_string(), true));
    assert!(!d.try_write_line_to_pane("Nowhere", "oops".to_string(), false));
    let first = d.flush_checked().unwrap();
    assert!(first.starts_with("header"));
    assert!(first.contains("hello"));
    assert!(first.contains("oops"));
    assert!(first.contains("bye"));
    let second = d.flush();
    assert!(!second.contains("hello"));
    assert_eq!(d.history_text(), format!("{first}\n\n{second}"));
}
