use stb_textedit::edit::{stb_textedit_cut, stb_textedit_paste};
use stb_textedit::editor::STB_TexteditState;
use stb_textedit::keys::{
    stb_textedit_key, STB_TEXTEDIT_K_DELETE, STB_TEXTEDIT_K_DOWN, STB_TEXTEDIT_K_LEFT,
    STB_TEXTEDIT_K_PGDOWN, STB_TEXTEDIT_K_REDO, STB_TEXTEDIT_K_SHIFT, STB_TEXTEDIT_K_TEXTEND,
    STB_TEXTEDIT_K_TEXTSTART, STB_TEXTEDIT_K_UNDO,
};
use stb_textedit::layout::stb_text_locate_coord;
use stb_textedit::text::{TextBuffer, STB_TEXTEDIT_INSERTCHARS};
use stb_textedit::undo::{STB_TEXTEDIT_UNDOCHARCOUNT, STB_TEXTEDIT_UNDOSTATECOUNT};

fn codes(s: &str) -> Vec<i32> {
    s.chars().map(|c| c as i32).collect()
}

fn buffer_with(s: &str) -> TextBuffer {
    let mut b = TextBuffer::new(10000, 10, 20);
    assert!(STB_TEXTEDIT_INSERTCHARS(&mut b, 0, &codes(s)));
    b
}

#[test]
fn single_line_edit_undo_redo() {
    let mut b = TextBuffer::new(100, 10, 20);
    let mut st = STB_TexteditState::new(true);
    for c in "abc".chars() {
        stb_textedit_key(&mut b, &mut st, c as i32);
    }
    assert_eq!(b.as_slice(), codes("abc").as_slice());
    assert_eq!(st.cursor, 3);
    stb_textedit_key(&mut b, &mut st, STB_TEXTEDIT_K_LEFT);
    assert_eq!(st.cursor, 2);
    stb_textedit_key(&mut b, &mut st, STB_TEXTEDIT_K_LEFT | STB_TEXTEDIT_K_SHIFT);
    assert_eq!((st.select_start.min(st.select_end), st.select_start.max(st.select_end)), (1, 2));
    assert_eq!(st.cursor, 1);
    stb_textedit_key(&mut b, &mut st, STB_TEXTEDIT_K_DELETE);
    assert_eq!(b.as_slice(), codes("ac").as_slice());
    assert_eq!(st.cursor, 1);
    stb_textedit_key(&mut b, &mut st, STB_TEXTEDIT_K_UNDO);
    assert_eq!(b.as_slice(), codes("abc").as_slice());
    assert_eq!(st.cursor, 2);
    assert_eq!((st.select_start, st.select_end), (1, 2));
    stb_textedit_key(&mut b, &mut st, STB_TEXTEDIT_K_REDO);
    assert_eq!(b.as_slice(), codes("ac").as_slice());
    assert_eq!((st.cursor, st.select_start, st.select_end), (1, 1, 1));
}

#[test]
fn down_keeps_column() {
    let mut b = buffer_with("hi\nworld");
    let mut st = STB_TexteditState::new(false);
    st.cursor = 2;
    stb_textedit_key(&mut b, &mut st, STB_TEXTEDIT_K_DOWN);
    assert_eq!(st.cursor, 5);
    assert_eq!(st.has_preferred_x, 1);
    assert_eq!(st.preferred_x, 20);
}

#[test]
fn page_down_moves_three_rows() {
    let mut b = buffer_with("ab\ncd\nef\ngh\nij");
    let mut st = STB_TexteditState::new(false);
    st.row_count_per_page = 3;
    stb_textedit_key(&mut b, &mut st, STB_TEXTEDIT_K_PGDOWN);
    assert_eq!(st.cursor, 9);
    assert_eq!((st.select_start, st.select_end), (0, 0));
    assert_eq!((st.has_preferred_x, st.preferred_x), (1, 0));
}

#[test]
fn page_down_stops_at_end_of_text() {
    let mut b = buffer_with("ab\ncd");
    let mut st = STB_TexteditState::new(false);
    st.row_count_per_page = 3;
    stb_textedit_key(&mut b, &mut st, STB_TEXTEDIT_K_PGDOWN);
    assert_eq!(st.cursor, 5);
}

#[test]
fn undo_log_keeps_newest_records() {
    let mut b = TextBuffer::new(1000, 10, 20);
    let mut st = STB_TexteditState::new(false);
    for i in 0..200 {
        stb_textedit_key(&mut b, &mut st, 'a' as i32 + (i % 26));
        if i >= 99 {
            assert_eq!(st.undostate.undo_point, STB_TEXTEDIT_UNDOSTATECOUNT);
        }
    }
    assert_eq!(b.as_slice().len(), 200);
    for k in 0..99 {
        stb_textedit_key(&mut b, &mut st, STB_TEXTEDIT_K_UNDO);
        assert_eq!(b.as_slice().len(), 199 - k);
    }
    assert_eq!(st.undostate.undo_point, 0);
    stb_textedit_key(&mut b, &mut st, STB_TEXTEDIT_K_UNDO);
    assert_eq!(b.as_slice().len(), 101);
}

#[test]
fn paste_longer_than_char_buffer() {
    let mut b = TextBuffer::new(5000, 10, 20);
    let mut st = STB_TexteditState::new(false);
    let long: Vec<i32> = (0..1200).map(|i| 'a' as i32 + (i % 26)).collect();
    assert!(long.len() as i32 > STB_TEXTEDIT_UNDOCHARCOUNT);
    assert_eq!(stb_textedit_paste(&mut b, &mut st, &long), 1);
    assert_eq!(b.as_slice(), long.as_slice());
    assert_eq!(st.cursor, 1200);
    // removing it keeps more characters than the log can hold: the log empties
    stb_textedit_key(&mut b, &mut st, STB_TEXTEDIT_K_TEXTSTART);
    stb_textedit_key(&mut b, &mut st, STB_TEXTEDIT_K_TEXTEND | STB_TEXTEDIT_K_SHIFT);
    assert_eq!(stb_textedit_cut(&mut b, &mut st), 1);
    assert_eq!(b.as_slice().len(), 0);
    assert_eq!(st.undostate.undo_point, 0);
    stb_textedit_key(&mut b, &mut st, STB_TEXTEDIT_K_UNDO);
    assert_eq!(b.as_slice().len(), 0);
}

#[test]
fn click_below_last_line() {
    let b = buffer_with("ab\ncd");
    let mut side = 0;
    let p = stb_text_locate_coord(&b, 5, 1000, &mut side);
    assert_eq!(p, 5);
    assert_eq!(side, 1);
}
