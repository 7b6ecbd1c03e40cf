use tethera_server::terminal::buffer::Buffer;
use tethera_server::terminal::cell::Cell;
use tethera_server::terminal::emulator::{Emulator, Size};
use tethera_server::terminal::frames::{FrameBuilder, RowUpdate, Span, TerminalFrame};
use tethera_server::terminal::pen::Pen;
use tethera_server::terminal::registry::{CloseReason, PaneChange, PaneEmulator, PaneRegistry, PumpAction, ReplySent};
use tethera_server::terminal::source::PaneSource;
use tethera_server::terminal::screen::Screen;
use tethera_server::terminal::style::{Color, CursorShape, Style, BOLD};
use tethera_server::terminal::styles::StyleTable;

fn glyph(ch: char) -> Cell {
    Cell::new(ch, Style::plain(), 1)
}

fn print(screen: &mut Screen, text: &str) {
    for ch in text.chars() {
        if ch == '\n' {
            screen.execute(0x0d);
            screen.execute(0x0a);
        } else {
            screen.print_char(ch);
        }
    }
}

fn csi(screen: &mut Screen, params: &[u16], action: char) {
    let params: Vec<Vec<u16>> = params.iter().map(|p| vec![*p]).collect();
    screen.csi_dispatch(&params, &[], false, action);
}

#[test]
fn buffer_clamps_an_empty_size_to_one_cell() {
    let buffer = Buffer::new(0, 0);
    assert_eq!((buffer.cols(), buffer.rows()), (1, 1));
}

#[test]
fn buffer_reads_back_what_was_set_and_marks_it() {
    let mut buffer = Buffer::new(4, 2);
    buffer.set(1, 0, glyph('x'));
    assert_eq!(buffer.cell(1, 0).ch, 'x');
    assert_eq!(buffer.cell(9, 9), Cell::blank());
    assert_eq!(buffer.dirty_rows(), 1);
    assert_eq!(buffer.take_dirty(), vec![(0, 1, 1)]);
    assert_eq!(buffer.take_dirty(), vec![]);
}

#[test]
fn buffer_ignores_a_write_off_the_grid() {
    let mut buffer = Buffer::new(2, 2);
    buffer.set(2, 0, glyph('x'));
    assert_eq!(buffer.dirty_rows(), 0);
}

#[test]
fn buffer_scroll_up_returns_the_rows_that_left_the_top() {
    let mut buffer = Buffer::new(2, 3);
    buffer.set(0, 0, glyph('a'));
    buffer.set(0, 1, glyph('b'));
    buffer.set(0, 2, glyph('c'));
    let evicted = buffer.scroll_up(0, 2, 1);
    assert_eq!(evicted.len(), 1);
    assert_eq!(evicted[0][0].ch, 'a');
    assert_eq!(buffer.cell(0, 0).ch, 'b');
    assert_eq!(buffer.cell(0, 1).ch, 'c');
    assert_eq!(buffer.cell(0, 2), Cell::blank());
}

#[test]
fn buffer_scroll_is_clamped_to_the_region() {
    let mut buffer = Buffer::new(1, 3);
    buffer.set(0, 1, glyph('b'));
    let evicted = buffer.scroll_up(1, 2, 9);
    assert_eq!(evicted.len(), 2);
    assert_eq!(buffer.cell(0, 1), Cell::blank());
    assert!(buffer.scroll_up(2, 1, 1).is_empty());
}

#[test]
fn buffer_scroll_down_blanks_the_top_of_the_region() {
    let mut buffer = Buffer::new(1, 3);
    buffer.set(0, 0, glyph('a'));
    buffer.set(0, 1, glyph('b'));
    buffer.scroll_down(0, 2, 1);
    assert_eq!(buffer.cell(0, 0), Cell::blank());
    assert_eq!(buffer.cell(0, 1).ch, 'a');
    assert_eq!(buffer.cell(0, 2).ch, 'b');
}

#[test]
fn buffer_resize_keeps_what_still_fits() {
    let mut buffer = Buffer::new(3, 3);
    buffer.set(0, 0, glyph('a'));
    buffer.set(2, 2, glyph('z'));
    buffer.resize(2, 2);
    assert_eq!((buffer.cols(), buffer.rows()), (2, 2));
    assert_eq!(buffer.cell(0, 0).ch, 'a');
    assert_eq!(buffer.dirty_rows(), 2);
}

#[test]
fn buffer_erasing_half_a_wide_glyph_erases_both_halves() {
    let mut buffer = Buffer::new(4, 1);
    buffer.set(0, 0, Cell::new('中', Style::plain(), 2));
    buffer.set(1, 0, Cell::continuation(Style::plain()));
    buffer.fill(0, 1, 1, Cell::blank());
    assert_eq!(buffer.cell(0, 0), Cell::blank());
}

#[test]
fn buffer_insert_and_delete_shift_the_row() {
    let mut buffer = Buffer::new(3, 1);
    buffer.set(0, 0, glyph('a'));
    buffer.set(1, 0, glyph('b'));
    buffer.insert_cells(0, 0, 1);
    assert_eq!(buffer.cell(1, 0).ch, 'a');
    assert_eq!(buffer.cell(2, 0).ch, 'b');
    buffer.delete_cells(0, 0, 2);
    assert_eq!(buffer.cell(0, 0).ch, 'b');
    assert_eq!(buffer.cell(2, 0), Cell::blank());
}

#[test]
fn screen_prints_and_wraps_at_the_edge() {
    let mut screen = Screen::new(3, 2);
    print(&mut screen, "abcd");
    assert_eq!(screen.text(), "abc\nd");
    assert_eq!((screen.cursor().x, screen.cursor().y), (1, 1));
}

#[test]
fn screen_history_takes_lines_that_scroll_off() {
    let mut screen = Screen::new(4, 2);
    print(&mut screen, "one\ntwo\ntre");
    assert_eq!(screen.text(), "two\ntre");
    assert_eq!(screen.scrollback_len(), Some(1));
    let (lines, next, more) = screen.scrollback_page(None, 10);
    assert_eq!(lines.len(), 1);
    let first: String = lines[0].iter().map(|c| c.ch).collect();
    assert_eq!(first, "one");
    assert_eq!(next, None);
    assert!(!more);
}

#[test]
fn screen_answers_a_cursor_position_query() {
    let mut screen = Screen::new(10, 5);
    csi(&mut screen, &[3, 4], 'H');
    csi(&mut screen, &[6], 'n');
    assert_eq!(screen.take_replies(), b"\x1b[3;4R".to_vec());
    csi(&mut screen, &[5], 'n');
    assert_eq!(screen.take_replies(), b"\x1b[0n".to_vec());
    csi(&mut screen, &[], 'c');
    assert_eq!(screen.take_replies(), b"\x1b[?62;22c".to_vec());
}

#[test]
fn screen_sgr_colours_what_is_printed() {
    let mut screen = Screen::new(4, 1);
    csi(&mut screen, &[1, 31], 'm');
    screen.print_char('r');
    let cell = screen.active().cell(0, 0);
    assert_eq!(cell.style.fg, Color::Indexed(1));
    assert_eq!(cell.style.attrs & BOLD, BOLD);
    csi(&mut screen, &[], 'm');
    screen.print_char('p');
    assert_eq!(screen.active().cell(1, 0).style, Style::plain());
}

#[test]
fn screen_erase_in_display_clears_the_screen() {
    let mut screen = Screen::new(3, 2);
    print(&mut screen, "ab\ncd");
    csi(&mut screen, &[2], 'J');
    assert_eq!(screen.text(), "\n");
}

#[test]
fn screen_erase_in_line_clears_from_the_cursor() {
    let mut screen = Screen::new(4, 1);
    print(&mut screen, "abcd");
    csi(&mut screen, &[2], 'G');
    csi(&mut screen, &[], 'K');
    assert_eq!(screen.text(), "a");
}

#[test]
fn screen_alternate_screen_keeps_the_primary() {
    let mut screen = Screen::new(4, 2);
    print(&mut screen, "main");
    screen.csi_dispatch(&vec![vec![1049]], b"?", false, 'h');
    assert!(screen.alt_screen());
    assert_eq!(screen.scrollback_len(), None);
    assert_eq!(screen.text(), "\n");
    print(&mut screen, "alt");
    screen.csi_dispatch(&vec![vec![1049]], b"?", false, 'l');
    assert!(!screen.alt_screen());
    assert_eq!(screen.text(), "main\n");
}

#[test]
fn screen_scroll_region_is_reset_when_it_cannot_exist() {
    let mut screen = Screen::new(4, 4);
    csi(&mut screen, &[3, 2], 'r');
    assert_eq!(screen.cursor().y, 0);
    csi(&mut screen, &[2, 3], 'r');
    assert_eq!(screen.cursor().y, 1);
}

#[test]
fn screen_resize_clamps_the_cursor() {
    let mut screen = Screen::new(10, 10);
    csi(&mut screen, &[9, 9], 'H');
    screen.resize(4, 3);
    assert_eq!((screen.cursor().x, screen.cursor().y), (3, 2));
}

#[test]
fn screen_repeat_draws_the_last_character_again() {
    let mut screen = Screen::new(5, 1);
    screen.print_char('x');
    csi(&mut screen, &[3], 'b');
    assert_eq!(screen.text(), "xxxx");
}

#[test]
fn screen_cursor_shape_and_visibility() {
    let mut screen = Screen::new(5, 1);
    screen.csi_dispatch(&vec![vec![5]], b" ", false, 'q');
    assert_eq!(screen.cursor().shape, CursorShape::Bar);
    screen.csi_dispatch(&vec![vec![25]], b"?", false, 'l');
    assert!(!screen.cursor().visible);
}

#[test]
fn screen_save_and_restore_the_cursor() {
    let mut screen = Screen::new(5, 5);
    csi(&mut screen, &[2, 2], 'H');
    screen.esc_dispatch(&[], false, b'7');
    csi(&mut screen, &[5, 5], 'H');
    screen.esc_dispatch(&[], false, b'8');
    assert_eq!((screen.cursor().x, screen.cursor().y), (1, 1));
}

#[test]
fn screen_reset_keeps_the_history_and_replies() {
    let mut screen = Screen::new(3, 1);
    print(&mut screen, "ab\ncd");
    csi(&mut screen, &[5], 'n');
    screen.esc_dispatch(&[], false, b'c');
    assert_eq!(screen.text(), "");
    assert_eq!(screen.scrollback_len(), Some(1));
    assert_eq!(screen.take_replies(), b"\x1b[0n".to_vec());
}

#[test]
fn screen_backspace_and_tab_move_the_cursor() {
    let mut screen = Screen::new(20, 1);
    screen.execute(0x09);
    assert_eq!(screen.cursor().x, 8);
    screen.execute(0x08);
    assert_eq!(screen.cursor().x, 7);
    screen.execute(0x07);
    assert!(screen.take_bell());
}

#[test]
fn pen_reads_both_extended_colour_forms() {
    let mut pen = Pen::new();
    pen.apply_sgr(&vec![vec![38], vec![5], vec![196]]);
    assert_eq!(pen.style().fg, Color::Indexed(196));
    pen.apply_sgr(&vec![vec![48, 2, 1, 2, 3], vec![4]]);
    assert_eq!(pen.style().bg, Color::Rgb(1, 2, 3));
    assert_eq!(pen.style().attrs, 8);
    pen.apply_sgr(&vec![]);
    assert_eq!(pen.style(), Style::plain());
}

#[test]
fn style_table_names_a_style_once() {
    let mut table = StyleTable::new();
    let bold = Style { attrs: BOLD, ..Style::plain() };
    assert_eq!(table.intern(Style::plain()), 0);
    assert_eq!(table.intern(bold), 1);
    assert_eq!(table.intern(Style::plain()), 0);
    assert_eq!(table.len(), 2);
}

#[test]
fn spans_join_cells_of_one_style() {
    let mut table = StyleTable::new();
    let cells = vec![glyph('h'), glyph('i')];
    let spans = FrameBuilder::spans(&cells, &mut table);
    assert_eq!(spans, vec![Span { style: 0, text: "hi".to_string() }]);
}

#[test]
fn spans_emit_a_wide_glyph_once_and_an_orphan_as_a_space() {
    let mut table = StyleTable::new();
    let cells = vec![
        Cell::new('中', Style::plain(), 2),
        Cell::continuation(Style::plain()),
        Cell::continuation(Style::plain()),
        Cell::new('中', Style::plain(), 2),
        glyph('a'),
    ];
    let spans = FrameBuilder::spans(&cells, &mut table);
    assert_eq!(spans, vec![Span { style: 0, text: "中  a".to_string() }]);
}

#[test]
fn snapshot_leaves_blank_rows_out() {
    let mut screen = Screen::new(4, 3);
    print(&mut screen, "\nhi");
    let frame = FrameBuilder::snapshot(&screen);
    match frame {
        TerminalFrame::Snapshot { cols, rows, styles, rows_data, alt_screen, scrollback_len, .. } => {
            assert_eq!((cols, rows), (4, 3));
            assert_eq!(styles, vec![Style::plain()]);
            assert_eq!(
                rows_data,
                vec![RowUpdate { y: 1, from_x: 0, spans: vec![Span { style: 0, text: "hi".to_string() }] }]
            );
            assert!(!alt_screen);
            assert_eq!(scrollback_len, Some(0));
        },
        other => panic!("expected a snapshot, got {other:?}"),
    }
}

#[test]
fn damage_carries_only_the_changed_columns() {
    let mut screen = Screen::new(5, 2);
    let _ = FrameBuilder::damage(&mut screen);
    csi(&mut screen, &[1, 3], 'H');
    screen.print_char('z');
    let frame = FrameBuilder::damage(&mut screen).expect("a change");
    match frame {
        TerminalFrame::Damage { rows_data, cursor, .. } => {
            assert_eq!(
                rows_data,
                vec![RowUpdate { y: 0, from_x: 2, spans: vec![Span { style: 0, text: "z".to_string() }] }]
            );
            assert_eq!(cursor.map(|c| (c.x, c.y)), Some((3, 0)));
        },
        other => panic!("expected damage, got {other:?}"),
    }
    assert!(FrameBuilder::damage(&mut screen).is_none());
}

#[test]
fn emulator_owes_the_bell_first() {
    let mut emulator = Emulator::new(Size { cols: 4, rows: 4 });
    emulator.screen_mut().execute(0x07);
    assert_eq!(emulator.next_frame(), Some(TerminalFrame::Bell));
}

#[test]
fn emulator_resnapshots_once_half_the_rows_are_dirty() {
    let mut emulator = Emulator::new(Size { cols: 4, rows: 2 });
    emulator.screen_mut().print_char('a');
    match emulator.next_frame() {
        Some(TerminalFrame::Snapshot { .. }) => {},
        other => panic!("expected a snapshot, got {other:?}"),
    }
    assert_eq!(emulator.next_frame(), None);
}

#[test]
fn buffer_damage_covers_every_changed_cell() {
    let mut buffer = Buffer::new(6, 2);
    buffer.take_dirty();
    buffer.set(1, 0, glyph('a'));
    buffer.set(4, 0, glyph('b'));
    buffer.insert_cells(2, 1, 1);
    assert_eq!(buffer.take_dirty(), vec![(0, 1, 4), (1, 2, 5)]);
    assert_eq!(buffer.take_dirty(), vec![]);
}

#[test]
fn buffer_wide_glyph_marks_its_continuation() {
    let mut buffer = Buffer::new(4, 1);
    buffer.take_dirty();
    buffer.draw_glyph(false, 1, 0, Cell::new('中', Style::plain(), 2), 2);
    assert_eq!(buffer.cell(2, 0), Cell::continuation(Style::plain()));
    assert_eq!(buffer.take_dirty(), vec![(0, 1, 2)]);
}

#[test]
fn screen_alternate_screen_gives_back_the_cursor_and_pen() {
    let mut screen = Screen::new(6, 3);
    csi(&mut screen, &[2, 3], 'H');
    csi(&mut screen, &[1], 'm');
    screen.csi_dispatch(&vec![vec![1049]], b"?", false, 'h');
    assert_eq!((screen.cursor().x, screen.cursor().y), (0, 0));
    csi(&mut screen, &[3, 4], 'H');
    csi(&mut screen, &[0], 'm');
    screen.csi_dispatch(&vec![vec![1049]], b"?", false, 'l');
    assert_eq!((screen.cursor().x, screen.cursor().y), (2, 1));
    screen.print_char('z');
    assert_eq!(screen.text(), "\n  z\n");
}

#[test]
fn a_session_behind_the_pane_is_sent_the_whole_screen() {
    let mut pane = PaneEmulator::new(Size { cols: 4, rows: 4 });
    let (opened, epoch) = pane.open();
    assert!(matches!(opened, TerminalFrame::Snapshot { .. }));
    assert_eq!(epoch, 0);
    assert_eq!(pane.next(0), (None, 0));
    pane.emulator.screen_mut().print_char('x');
    let (stale, stale_epoch) = pane.next(7);
    assert!(matches!(stale, Some(TerminalFrame::Snapshot { .. })));
    assert_eq!(stale_epoch, 0);
    let (damage, epoch) = pane.next(0);
    assert!(matches!(damage, Some(TerminalFrame::Damage { .. })));
    assert_eq!(epoch, 1);
    assert_eq!(pane.next(1), (None, 1));
}

#[test]
fn a_bell_moves_no_epoch() {
    let mut pane = PaneEmulator::new(Size { cols: 4, rows: 4 });
    let (_, epoch) = pane.next(0);
    pane.emulator.screen_mut().execute(0x07);
    assert_eq!(pane.next(epoch), (Some(TerminalFrame::Bell), epoch));
}

#[test]
fn pane_history_pages_are_spans_with_their_styles() {
    let mut pane = PaneEmulator::new(Size { cols: 3, rows: 1 });
    print(pane.emulator.screen_mut(), "ab\ncd\nef");
    let (styles, rows, next, has_earlier) = pane.scrollback(None, 10);
    assert_eq!(styles, vec![Style::plain()]);
    assert_eq!(
        rows,
        vec![
            RowUpdate { y: 0, from_x: 0, spans: vec![Span { style: 0, text: "ab".to_string() }] },
            RowUpdate { y: 1, from_x: 0, spans: vec![Span { style: 0, text: "cd".to_string() }] },
        ]
    );
    assert_eq!((next, has_earlier), (None, false));
    assert_eq!(pane.screen_text(), "ef");
    assert_eq!(pane.modes(), (false, false));
}

#[test]
fn damage_only_sends_no_snapshot_and_swallows_the_bell() {
    let mut emulator = Emulator::new(Size { cols: 4, rows: 2 });
    emulator.screen_mut().execute(0x07);
    assert_eq!(emulator.damage_only(), None);
    assert!(!emulator.take_bell());
    emulator.screen_mut().print_char('a');
    match emulator.damage_only() {
        Some(TerminalFrame::Damage { rows_data, .. }) => {
            assert_eq!(rows_data, vec![RowUpdate { y: 0, from_x: 0, spans: vec![Span { style: 0, text: "a".to_string() }] }]);
        },
        other => panic!("expected damage, got {other:?}"),
    }
}

#[test]
fn screen_printing_a_letter_on_a_fresh_screen_moves_the_cursor_one_column() {
    let mut screen = Screen::new(5, 2);
    screen.print_char('a');
    assert_eq!((screen.cursor().x, screen.cursor().y), (1, 0));
}

#[test]
fn pane_replies_go_back_only_from_a_streamed_pane() {
    let mut streamed = PaneEmulator::new(Size { cols: 4, rows: 3 });
    csi(streamed.emulator.screen_mut(), &[6], 'n');
    assert_eq!(streamed.replies_for(PaneSource::Streamed), Some(b"\x1b[1;1R".to_vec()));
    assert_eq!(streamed.replies_for(PaneSource::Streamed), None);

    let mut relayed = PaneEmulator::new(Size { cols: 4, rows: 3 });
    csi(relayed.emulator.screen_mut(), &[6], 'n');
    assert_eq!(relayed.replies_for(PaneSource::Relayed), None);
    assert_eq!(relayed.replies_for(PaneSource::Streamed), None);
}

#[test]
fn pump_steps_follow_what_the_reply_and_the_source_said() {
    let mut pane = PaneEmulator::new(Size { cols: 4, rows: 3 });
    assert_eq!(pane.after_output(None), PumpAction::Carry);
    assert_eq!(pane.revision, 1);
    assert_eq!(pane.after_output(Some(ReplySent::Sent)), PumpAction::Carry);
    assert_eq!(pane.revision, 2);
    assert_eq!(pane.after_output(Some(ReplySent::Full)), PumpAction::Carry);
    assert_eq!(pane.revision, 2);
    assert_eq!(pane.closed(), None);

    let resized = pane.on_change(PaneChange::Resized(Size { cols: 9, rows: 5 }));
    assert_eq!(resized, PumpAction::Carry);
    assert_eq!(pane.revision, 3);
    assert_eq!((pane.emulator.screen().active().cols(), pane.emulator.screen().active().rows()), (9, 5));
    assert_eq!(pane.on_change(PaneChange::Closed(CloseReason::Exited)), PumpAction::Stop(CloseReason::Exited));
    assert_eq!(pane.closed(), Some(CloseReason::Exited));
    assert_eq!(pane.revision, 4);

    let mut gone = PaneEmulator::new(Size { cols: 4, rows: 3 });
    assert_eq!(gone.after_output(Some(ReplySent::Gone)), PumpAction::Stop(CloseReason::PaneGone));
    assert_eq!(gone.closed(), Some(CloseReason::PaneGone));
    let mut ended = PaneEmulator::new(Size { cols: 4, rows: 3 });
    assert_eq!(ended.on_change(PaneChange::Ended), PumpAction::Stop(CloseReason::PaneGone));
    assert_eq!(ended.closed(), Some(CloseReason::PaneGone));
    ended.revision = u64::MAX;
    ended.close(CloseReason::Disconnected);
    assert_eq!((ended.closed(), ended.revision), (Some(CloseReason::Disconnected), 0));
}

#[test]
fn a_dead_pane_is_forgotten_only_while_it_is_still_the_live_one() {
    let mut held = vec![("a".to_string(), 1), ("b".to_string(), 2)];
    PaneRegistry::forget_if_same(&mut held, "b", 9);
    assert_eq!(held.len(), 2);
    PaneRegistry::forget_if_same(&mut held, "b", 2);
    assert_eq!(held, vec![("a".to_string(), 1)]);
    PaneRegistry::forget_if_same(&mut held, "c", 1);
    assert_eq!(held, vec![("a".to_string(), 1)]);
}

#[test]
fn screen_switching_to_the_alternate_screen_and_back_restores_the_primary() {
    let mut screen = Screen::new(4, 2);
    print(&mut screen, "ab");
    screen.switch_alt(true, true);
    assert!(screen.alt_screen());
    assert_eq!((screen.cursor().x, screen.cursor().y), (0, 0));
    assert_eq!(screen.text(), "\n");
    print(&mut screen, "zz");
    screen.switch_alt(false, true);
    assert!(!screen.alt_screen());
    assert_eq!((screen.cursor().x, screen.cursor().y), (2, 0));
    assert_eq!(screen.text(), "ab\n");
}
