use pmux::screen::render::sgr_sequence;
use pmux::screen::{Action, CellAttr, Color, Screen};

/// Collects the actions a VT parser reports for a byte string.
struct Actions {
    list: Vec<Action>,
}

impl vte::Perform for Actions {
    fn print(&mut self, c: char) {
        self.list.push(Action::Print(c));
    }

    fn execute(&mut self, byte: u8) {
        self.list.push(Action::Execute(byte));
    }

    fn csi_dispatch(&mut self, params: &vte::Params, intermediates: &[u8], _ignore: bool, action: char) {
        let params: Vec<u16> = params.iter().map(|p| p[0]).collect();
        self.list.push(Action::Csi { params, intermediates: intermediates.to_vec(), action });
    }

    fn esc_dispatch(&mut self, _intermediates: &[u8], _ignore: bool, byte: u8) {
        self.list.push(Action::Esc(byte));
    }

    fn osc_dispatch(&mut self, params: &[&[u8]], _bell_terminated: bool) {
        self.list.push(Action::Osc(params.iter().map(|p| p.to_vec()).collect()));
    }
}

fn feed(screen: &mut Screen, data: &[u8]) {
    let mut parser = vte::Parser::new();
    let mut actions = Actions { list: Vec::new() };
    for &b in data {
        parser.advance(&mut actions, b);
    }
    screen.perform_all(&actions.list);
}

fn transcript(screen: &mut Screen) -> String {
    String::from_utf8(screen.drain_transcript()).unwrap()
}

#[test]
fn alternate_screen_restores_cursor_and_attributes() {
    let mut s = Screen::new(20, 5);
    feed(&mut s, b"ab\x1b[1m\x1b[2;3r\x1b[3;4H");
    let cursor = s.cursor();
    feed(&mut s, b"\x1b[?1049h\x1b[0mxyz\x1b[5;5H\x1b[?1049l");
    assert_eq!(s.cursor(), cursor);
    feed(&mut s, b"Q");
    assert!(s.cell(3, 2).attr.bold);
    assert_eq!(s.line_text(0), "ab");
    assert!(!s.alt_active());
}

#[test]
fn alternate_screen_47_keeps_cursor_where_it_is() {
    let mut s = Screen::new(20, 5);
    feed(&mut s, b"hello\x1b[?47h");
    assert_eq!(s.cursor(), (5, 0));
    feed(&mut s, b"\x1b[3;3Halt\x1b[?47l");
    assert_eq!(s.cursor(), (5, 2));
    assert_eq!(s.line_text(0), "hello");
    assert_eq!(s.line_text(2), "");
}

#[test]
fn resize_keeps_shared_cells_and_blanks_new_ones() {
    let mut s = Screen::new(4, 2);
    feed(&mut s, b"abcd\r\nefgh");
    s.resize(2, 3);
    assert_eq!(s.line_text(0), "ab");
    assert_eq!(s.line_text(1), "ef");
    assert_eq!(s.line_text(2), "");
    assert_eq!(s.cursor(), (1, 1));
    s.resize(6, 1);
    assert_eq!(s.text(), "ab");
    assert_eq!(s.cursor(), (1, 0));
}

#[test]
fn drain_twice_gives_nothing_the_second_time() {
    let mut s = Screen::new(20, 5);
    feed(&mut s, b"one\r\ntwo");
    assert_eq!(transcript(&mut s), "one\ntwo");
    assert_eq!(transcript(&mut s), "");
    feed(&mut s, b"three");
    assert_eq!(String::from_utf8_lossy(s.transcript()), "three");
    s.clear_transcript();
    assert!(s.transcript().is_empty());
}

#[test]
fn committed_lines_split_from_the_typed_line() {
    let mut s = Screen::new(20, 5);
    feed(&mut s, b"a\r\nb\r\nc");
    let committed = s.committed_transcript();
    assert_eq!(committed, b"a\nb\n");
    s.discard_committed_transcript();
    assert_eq!(s.transcript(), b"c");
}

#[test]
fn suppressed_output_is_not_recorded_until_input() {
    let mut s = Screen::new(20, 5);
    feed(&mut s, b"ls");
    s.user_input(b"\x03");
    feed(&mut s, b"^C\r\nprompt> \x1b[2K\r\n");
    assert_eq!(transcript(&mut s), "");
    s.user_input(b"x");
    feed(&mut s, b"x\r\n");
    assert_eq!(transcript(&mut s), "x\n");
    s.user_input(b"ab\t");
    feed(&mut s, b"abc");
    assert_eq!(transcript(&mut s), "");
}

#[test]
fn plain_rendering_equals_text() {
    let mut s = Screen::new(10, 4);
    feed(&mut s, b"\r\nab  \r\n\r\nc");
    assert_eq!(s.text(), "\n\nab\n\nc");
    assert_eq!(s.render_ansi(), s.text());
}

#[test]
fn rendering_marks_attribute_changes() {
    let mut s = Screen::new(10, 2);
    feed(&mut s, b"a\x1b[1;38;5;200mb\x1b[0m \x1b[48;2;1;2;3m \x1b[0m");
    assert_eq!(s.render_ansi(), "a\x1b[0;1;38;5;200mb\x1b[0m \x1b[0;48;2;1;2;3m \x1b[0m");
    assert_eq!(s.text(), "ab");
}

#[test]
fn sgr_sequences_for_every_color_kind() {
    let d = CellAttr::default();
    assert_eq!(sgr_sequence(&CellAttr { fg: Color::Index(7), bg: Color::Index(0), ..d }), "\x1b[0;37;40m");
    assert_eq!(sgr_sequence(&CellAttr { bg: Color::Index(15), ..d }), "\x1b[0;107m");
    assert_eq!(sgr_sequence(&CellAttr { fg: Color::Index(16), ..d }), "\x1b[0;38;5;16m");
    assert_eq!(sgr_sequence(&CellAttr { fg: Color::Rgb(1, 22, 255), ..d }), "\x1b[0;38;2;1;22;255m");
    assert_eq!(
        sgr_sequence(&CellAttr { italic: true, underline: true, inverse: true, ..d }),
        "\x1b[0;3;4;7m"
    );
}

#[test]
fn sgr_parsing_handles_extended_and_reset_codes() {
    let mut s = Screen::new(10, 2);
    feed(&mut s, b"\x1b[38;5;300;1mA\x1b[22;39;48;5mB\x1b[38;2;9mC\x1b[97;104mD");
    assert_eq!(s.cell(0, 0).attr.fg, Color::Index(44));
    assert!(s.cell(0, 0).attr.bold);
    assert!(!s.cell(1, 0).attr.bold);
    assert_eq!(s.cell(1, 0).attr.fg, Color::Default);
    assert_eq!(s.cell(2, 0).attr.fg, Color::Rgb(9, 0, 0));
    assert_eq!(s.cell(3, 0).attr.fg, Color::Index(15));
    assert_eq!(s.cell(3, 0).attr.bg, Color::Index(12));
}

#[test]
fn invalid_utf8_title_is_ignored() {
    let mut s = Screen::new(10, 2);
    s.osc_dispatch(&[b"2".to_vec(), b"ok".to_vec()]);
    assert_eq!(s.title, "ok");
    s.osc_dispatch(&[b"2".to_vec(), vec![0xFF, 0x41]]);
    assert_eq!(s.title, "ok");
    s.osc_dispatch(&[b"4".to_vec(), b"no".to_vec()]);
    assert_eq!(s.title, "ok");
}

#[test]
fn character_editing_sequences() {
    let mut s = Screen::new(8, 2);
    feed(&mut s, b"abcdefgh\x1b[1;3H\x1b[2P");
    assert_eq!(s.line_text(0), "abefgh");
    feed(&mut s, b"\x1b[1;2H\x1b[3@");
    assert_eq!(s.line_text(0), "a   befg");
    feed(&mut s, b"\x1b[1;1H\x1b[2X");
    assert_eq!(s.line_text(0), "    befg");
    feed(&mut s, b"\x1b[1;6H\x1b[1K");
    assert_eq!(s.line_text(0), "      fg");
}

#[test]
fn erase_from_a_parked_cursor_stays_in_its_row() {
    let mut s = Screen::new(4, 3);
    feed(&mut s, b"abcdefgh");
    feed(&mut s, b"\x1b[?7l");
    assert_eq!(s.cursor(), (4, 1));
    feed(&mut s, b"\x1b[1;1Hwxyz\x1b[1K");
    assert_eq!(s.cursor(), (4, 0));
    assert_eq!(s.line_text(0), "");
    assert_eq!(s.line_text(1), "efgh");
    feed(&mut s, b"\x1b[1;1Hwxyz\x1b[1J");
    assert_eq!(s.line_text(0), "");
    assert_eq!(s.line_text(1), "efgh");
}

#[test]
fn scrolling_and_line_insertion() {
    let mut s = Screen::new(5, 4);
    feed(&mut s, b"0\r\n1\r\n2\r\n3");
    feed(&mut s, b"\x1b[2;1H\x1b[L");
    assert_eq!(s.text(), "0\n\n1\n2");
    feed(&mut s, b"\x1b[M");
    assert_eq!(s.text(), "0\n1\n2");
    feed(&mut s, b"\x1b[2S");
    assert_eq!(s.text(), "2");
    feed(&mut s, b"\x1b[T");
    assert_eq!(s.text(), "\n\n2");
    feed(&mut s, b"\x1b[1;1H\x1bM");
    assert_eq!(s.line_text(1), "");
    assert_eq!(s.line_text(2), "2");
}

#[test]
fn cursor_save_restore_and_reset() {
    let mut s = Screen::new(10, 4);
    feed(&mut s, b"\x1b[3;4H\x1b7\x1b[1;1Hx\x1b8y");
    assert_eq!(s.line_text(2), "   y");
    feed(&mut s, b"\x1b[31m\x1bc");
    assert_eq!(s.text(), "");
    assert_eq!(s.cursor(), (0, 0));
    feed(&mut s, b"z");
    assert_eq!(s.cell(0, 0).attr.fg, Color::Default);
}

#[test]
fn tabs_backspace_and_cursor_moves() {
    let mut s = Screen::new(20, 3);
    feed(&mut s, b"a\tb");
    assert_eq!(s.cursor(), (9, 0));
    feed(&mut s, b"\x1b[99C");
    assert_eq!(s.cursor(), (19, 0));
    feed(&mut s, b"\t");
    assert_eq!(s.cursor(), (19, 0));
    feed(&mut s, b"\r\x08");
    assert_eq!(s.cursor(), (0, 0));
    feed(&mut s, b"\x1b[5B\x1b[2A\x1b[3G\x1b[D");
    assert_eq!(s.cursor(), (1, 0));
    feed(&mut s, b"\x1b[2E");
    assert_eq!(s.cursor(), (0, 2));
    feed(&mut s, b"\x1b[F\x1b[3d");
    assert_eq!(s.cursor(), (0, 2));
    // The backspace after the carriage return takes back the last recorded tab.
    assert_eq!(String::from_utf8(s.drain_transcript()).unwrap(), "a\tb");
}

#[test]
fn dec_modes_switch_cursor_visibility_and_wrap() {
    let mut s = Screen::new(10, 2);
    assert!(s.cursor_visible());
    assert!(s.auto_wrap());
    feed(&mut s, b"\x1b[?25;7l");
    assert!(!s.cursor_visible());
    assert!(!s.auto_wrap());
    feed(&mut s, b"\x1b[?25h");
    assert!(s.cursor_visible());
}

#[test]
fn rendered_attributes_read_back() {
    let d = CellAttr::default();
    let attrs = [
        d,
        CellAttr { bold: true, fg: Color::Index(3), ..d },
        CellAttr { dim: true, inverse: true, bg: Color::Index(12), ..d },
        CellAttr { italic: true, underline: true, fg: Color::Index(200), bg: Color::Rgb(1, 2, 3), ..d },
    ];
    for a in attrs {
        let mut s = Screen::new(4, 1);
        feed(&mut s, b"\x1b[1;31;44m");
        let mut bytes = sgr_sequence(&a).into_bytes();
        bytes.push(b'x');
        feed(&mut s, &bytes);
        assert_eq!(s.cell(0, 0).attr, a);
    }
}

#[test]
fn feeding_in_pieces_equals_feeding_at_once() {
    let data: &[u8] = b"ab\r\ncd\x1b[2;1H\x1b[1mX\x1b[0m\x1b[?1049hq\x1b[?1049l";
    let mut whole = Screen::new(10, 3);
    feed(&mut whole, data);
    let mut parts = Screen::new(10, 3);
    feed(&mut parts, &data[..6]);
    feed(&mut parts, &data[6..]);
    assert_eq!(whole.render_ansi(), parts.render_ansi());
    assert_eq!(whole.cursor(), parts.cursor());
    assert_eq!(whole.transcript(), parts.transcript());
}

#[test]
fn restored_cursor_comes_back_where_it_was_saved() {
    let mut s = Screen::new(80, 24);
    feed(&mut s, b"\x1b[30;71H");
    assert_eq!(s.cursor(), (70, 23));
    feed(&mut s, b"\x1b7");
    s.resize(40, 10);
    assert_eq!(s.cursor(), (39, 9));
    feed(&mut s, b"\x1b8");
    assert_eq!(s.cursor(), (70, 23));
    // Below the grid a printed character is not shown, and the cursor wraps.
    feed(&mut s, b"Z");
    assert_eq!(s.cursor(), (1, 23));
    assert!(!s.text().contains('Z'));
    // Erasing or deleting from where the cursor stands cannot be carried out there.
    let del = Action::Csi { params: vec![1], intermediates: vec![], action: 'P' };
    assert!(!s.accepts(&del));
    let up = Action::Csi { params: vec![20], intermediates: vec![], action: 'A' };
    assert!(s.accepts(&up));
    s.perform(&up);
    assert_eq!(s.cursor(), (1, 3));
    assert!(s.accepts(&del));
}

#[test]
fn zero_sizes_are_taken_as_one() {
    let mut s = Screen::new(0, 0);
    assert_eq!(s.size(), (1, 1));
    s.resize(0, 5);
    assert_eq!(s.size(), (1, 5));
}

#[test]
fn sgr_sequence_sets_exactly_its_attributes() {
    let d = CellAttr::default();
    let attrs = [
        d,
        CellAttr { bold: true, fg: Color::Index(3), ..d },
        CellAttr { dim: true, italic: true, bg: Color::Index(12), ..d },
        CellAttr { underline: true, inverse: true, fg: Color::Index(200), bg: Color::Rgb(1, 2, 3), ..d },
        CellAttr { fg: Color::Rgb(255, 0, 9), ..d },
    ];
    for a in attrs {
        let mut s = Screen::new(80, 24);
        feed(&mut s, b"\x1b[1;2;3;4;7;31;42m");
        let q = sgr_sequence(&a);
        assert!(q.starts_with("\x1b[0") && q.ends_with('m'));
        feed(&mut s, q.as_bytes());
        feed(&mut s, b"X");
        assert_eq!(s.cell(0, 0).ch, 'X');
        assert_eq!(s.cell(0, 0).attr, a);
    }
}
