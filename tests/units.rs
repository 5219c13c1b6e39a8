use stb_textedit::edit::{
    stb_textedit_clamp, stb_textedit_cut, stb_textedit_delete, stb_textedit_delete_selection,
    stb_textedit_move_line_end, stb_textedit_move_line_start, stb_textedit_move_to_first,
    stb_textedit_move_to_last, stb_textedit_paste, stb_textedit_paste_internal,
    stb_textedit_prep_selection_at_cursor, stb_textedit_sortselection, stb_textedit_text,
    STB_TEXTEDIT_MOVELINEEND, STB_TEXTEDIT_MOVELINESTART,
};
use stb_textedit::editor::{
    stb_text_makeundo_delete, stb_text_makeundo_insert, stb_text_makeundo_replace, stb_text_redo,
    stb_text_undo, stb_textedit_clear_state, stb_textedit_initialize_state, STB_TexteditState,
};
use stb_textedit::keys::{
    stb_textedit_key, STB_TEXTEDIT_K_BACKSPACE, STB_TEXTEDIT_K_DELETE, STB_TEXTEDIT_K_DOWN,
    STB_TEXTEDIT_K_LEFT, STB_TEXTEDIT_K_LINEEND, STB_TEXTEDIT_K_LINESTART, STB_TEXTEDIT_K_PGUP,
    STB_TEXTEDIT_K_REDO, STB_TEXTEDIT_K_RIGHT, STB_TEXTEDIT_K_SHIFT, STB_TEXTEDIT_K_TEXTEND,
    STB_TEXTEDIT_K_TEXTSTART, STB_TEXTEDIT_K_UNDO, STB_TEXTEDIT_K_UP,
};
use stb_textedit::layout::{
    stb_text_locate_coord, stb_textedit_click, stb_textedit_drag, stb_textedit_find_charpos,
    StbFindState,
};
use stb_textedit::text::{
    StbTexteditRow, TextBuffer, STB_TEXTEDIT_DELETECHARS, STB_TEXTEDIT_GETCHAR,
    STB_TEXTEDIT_GETWIDTH, STB_TEXTEDIT_INSERTCHARS, STB_TEXTEDIT_KEYTOTEXT,
    STB_TEXTEDIT_LAYOUTROW, STB_TEXTEDIT_NEWLINE, STB_TEXTEDIT_STRINGLEN,
};
use stb_textedit::undo::{
    stb_text_create_undo_record, stb_text_createundo, stb_textedit_discard_redo,
    stb_textedit_discard_undo, stb_textedit_flush_redo, StbUndoState, STB_TEXTEDIT_UNDOCHARCOUNT,
    STB_TEXTEDIT_UNDOSTATECOUNT,
};

fn chars_of(s: &str) -> Vec<i32> {
    s.chars().map(|c| c as i32).collect()
}

fn text_buffer(s: &str) -> TextBuffer {
    let mut b = TextBuffer::new(10000, 10, 20);
    assert!(STB_TEXTEDIT_INSERTCHARS(&mut b, 0, &chars_of(s)));
    b
}

fn multi() -> STB_TexteditState {
    STB_TexteditState::new(false)
}

#[test]
fn length_and_characters() {
    let b = text_buffer("ab\nc");
    assert_eq!(STB_TEXTEDIT_STRINGLEN(&b), 4);
    assert_eq!(STB_TEXTEDIT_GETCHAR(&b, 2), STB_TEXTEDIT_NEWLINE);
    assert_eq!(STB_TEXTEDIT_GETCHAR(&b, 3), 'c' as i32);
}

#[test]
fn insert_and_delete_chars() {
    let mut b = text_buffer("abcd");
    assert!(STB_TEXTEDIT_INSERTCHARS(&mut b, 2, &chars_of("XY")));
    assert_eq!(b.as_slice(), chars_of("abXYcd").as_slice());
    STB_TEXTEDIT_DELETECHARS(&mut b, 1, 3);
    assert_eq!(b.as_slice(), chars_of("acd").as_slice());
}

#[test]
fn insert_refused_past_capacity() {
    let mut b = TextBuffer::new(3, 10, 20);
    assert!(STB_TEXTEDIT_INSERTCHARS(&mut b, 0, &chars_of("ab")));
    assert!(!STB_TEXTEDIT_INSERTCHARS(&mut b, 1, &chars_of("xy")));
    assert_eq!(b.as_slice(), chars_of("ab").as_slice());
}

#[test]
fn rows_follow_hard_lines() {
    let b = text_buffer("ab\ncde");
    let mut r = StbTexteditRow();
    STB_TEXTEDIT_LAYOUTROW(&mut r, &b, 0);
    assert_eq!((r.num_chars, r.x0, r.x1, r.ymin, r.ymax, r.baseline_y_delta), (3, 0, 30, 0, 20, 20));
    STB_TEXTEDIT_LAYOUTROW(&mut r, &b, 3);
    assert_eq!((r.num_chars, r.x1), (3, 30));
    STB_TEXTEDIT_LAYOUTROW(&mut r, &b, 6);
    assert_eq!(r.num_chars, 0);
    assert_eq!(STB_TEXTEDIT_GETWIDTH(&b, 3, 1), 10);
}

#[test]
fn key_codes_to_text() {
    assert_eq!(STB_TEXTEDIT_KEYTOTEXT('a' as i32), 'a' as i32);
    assert_eq!(STB_TEXTEDIT_KEYTOTEXT(STB_TEXTEDIT_K_LEFT), -1);
    assert_eq!(STB_TEXTEDIT_KEYTOTEXT(-5), -1);
}

#[test]
fn empty_descriptors() {
    let f = StbFindState();
    assert_eq!((f.x, f.y, f.height, f.first_char, f.length, f.prev_first), (0, 0, 0, 0, 0, 0));
    let r = StbTexteditRow();
    assert_eq!((r.x0, r.x1, r.num_chars), (0, 0, 0));
}

#[test]
fn find_in_second_line() {
    let b = text_buffer("ab\ncd");
    let mut f = StbFindState();
    stb_textedit_find_charpos(&mut f, &b, 4, 0);
    assert_eq!((f.first_char, f.length, f.x, f.y, f.height, f.prev_first), (3, 2, 10, 20, 20, 0));
    stb_textedit_find_charpos(&mut f, &b, 5, 0);
    assert_eq!((f.first_char, f.length, f.x, f.y), (3, 2, 20, 20));
}

#[test]
fn find_after_trailing_newline() {
    let b = text_buffer("ab\ncd\n");
    let mut f = StbFindState();
    stb_textedit_find_charpos(&mut f, &b, 6, 0);
    assert_eq!((f.first_char, f.length, f.x, f.y, f.prev_first), (6, 0, 0, 40, 3));
}

#[test]
fn find_end_of_single_line() {
    let b = text_buffer("abcd");
    let mut f = StbFindState();
    f.prev_first = 7;
    stb_textedit_find_charpos(&mut f, &b, 4, 1);
    assert_eq!((f.first_char, f.length, f.x, f.y, f.prev_first), (0, 4, 40, 0, 7));
}

#[test]
fn locate_rounds_to_nearer_edge() {
    let b = text_buffer("abc\ndef");
    let mut side = 9;
    assert_eq!(stb_text_locate_coord(&b, 14, 25, &mut side), 5);
    assert_eq!(side, 1);
    assert_eq!(stb_text_locate_coord(&b, 15, 25, &mut side), 6);
    assert_eq!(stb_text_locate_coord(&b, 3, 25, &mut side), 4);
    assert_eq!(side, 0);
}

#[test]
fn locate_outside_rows() {
    let b = text_buffer("abc\ndef");
    let mut side = 9;
    assert_eq!(stb_text_locate_coord(&b, 20, -3, &mut side), 0);
    assert_eq!(side, 0);
    assert_eq!(stb_text_locate_coord(&b, -4, 25, &mut side), 4);
    assert_eq!(side, 0);
    assert_eq!(stb_text_locate_coord(&b, 500, 5, &mut side), 3);
    assert_eq!(side, 1);
    assert_eq!(stb_text_locate_coord(&b, 500, 25, &mut side), 7);
    assert_eq!(side, 1);
}

#[test]
fn locate_inverts_find() {
    let b = text_buffer("one\ntwo words\nx");
    for n in 0..15 {
        let mut f = StbFindState();
        stb_textedit_find_charpos(&mut f, &b, n, 0);
        for eps in 0..5 {
            let mut side = 0;
            assert_eq!(stb_text_locate_coord(&b, f.x + eps, f.y, &mut side), n);
        }
    }
}

#[test]
fn click_and_drag_select() {
    let b = text_buffer("abc\ndef");
    let mut st = multi();
    st.has_preferred_x = 1;
    stb_textedit_click(&b, &mut st, 12, 25);
    assert_eq!((st.cursor, st.select_start, st.select_end, st.has_preferred_x), (5, 5, 5, 0));
    stb_textedit_drag(&b, &mut st, 2, 5);
    assert_eq!((st.cursor, st.select_start, st.select_end), (0, 5, 0));
}

#[test]
fn click_in_single_line_ignores_y() {
    let b = text_buffer("abcdef");
    let mut st = STB_TexteditState::new(true);
    stb_textedit_click(&b, &mut st, 31, 900);
    assert_eq!(st.cursor, 3);
}

#[test]
fn clamp_brings_back_into_text() {
    let b = text_buffer("abc");
    let mut st = multi();
    st.select_start = 7;
    st.select_end = 5;
    st.cursor = 9;
    stb_textedit_clamp(&b, &mut st);
    assert_eq!((st.cursor, st.select_start, st.select_end), (3, 3, 3));
    st.cursor = -2;
    st.select_start = -1;
    st.select_end = 2;
    stb_textedit_clamp(&b, &mut st);
    assert_eq!((st.cursor, st.select_start, st.select_end), (0, 0, 2));
}

#[test]
fn clamp_twice_is_clamp_once() {
    let b = text_buffer("abcd");
    let mut st = multi();
    st.select_start = 10;
    st.select_end = 2;
    st.cursor = 40;
    stb_textedit_clamp(&b, &mut st);
    let once = (st.cursor, st.select_start, st.select_end);
    stb_textedit_clamp(&b, &mut st);
    assert_eq!((st.cursor, st.select_start, st.select_end), once);
}

#[test]
fn selection_ordering() {
    let b = text_buffer("abcdef");
    let mut st = multi();
    st.select_start = 4;
    st.select_end = 1;
    stb_textedit_sortselection(&mut st);
    assert_eq!((st.select_start, st.select_end), (1, 4));
    st.select_start = 4;
    st.select_end = 1;
    stb_textedit_move_to_first(&mut st);
    assert_eq!((st.cursor, st.select_start, st.select_end), (1, 1, 1));
    st.select_start = 2;
    st.select_end = 9;
    stb_textedit_move_to_last(&b, &mut st);
    assert_eq!((st.cursor, st.select_start, st.select_end), (6, 6, 6));
}

#[test]
fn prepare_selection_at_cursor() {
    let mut st = multi();
    st.cursor = 3;
    stb_textedit_prep_selection_at_cursor(&mut st);
    assert_eq!((st.select_start, st.select_end), (3, 3));
    st.select_start = 1;
    st.select_end = 2;
    stb_textedit_prep_selection_at_cursor(&mut st);
    assert_eq!(st.cursor, 2);
}

#[test]
fn line_bounds() {
    let b = text_buffer("ab\ncde\nf");
    let st = multi();
    assert_eq!(stb_textedit_move_line_start(&b, &st, 5), 3);
    assert_eq!(STB_TEXTEDIT_MOVELINESTART(&b, &st, 3), 3);
    assert_eq!(stb_textedit_move_line_end(&b, &st, 4), 6);
    assert_eq!(STB_TEXTEDIT_MOVELINEEND(&b, &st, 7), 8);
    let single = STB_TexteditState::new(true);
    assert_eq!(stb_textedit_move_line_start(&b, &single, 5), 0);
    assert_eq!(stb_textedit_move_line_end(&b, &single, 1), 8);
}

#[test]
fn delete_records_undo() {
    let mut b = text_buffer("abcdef");
    let mut st = multi();
    stb_textedit_delete(&mut b, &mut st, 1, 3);
    assert_eq!(b.as_slice(), chars_of("aef").as_slice());
    assert_eq!(st.undostate.undo_point, 1);
    let r = st.undostate.undo_rec[0];
    assert_eq!((r.location, r.insert_length, r.delete_length), (1, 3, 0));
    stb_text_undo(&mut b, &mut st);
    assert_eq!(b.as_slice(), chars_of("abcdef").as_slice());
    assert_eq!(st.cursor, 4);
}

#[test]
fn delete_selection_and_cut() {
    let mut b = text_buffer("abcdef");
    let mut st = multi();
    st.select_start = 5;
    st.select_end = 2;
    stb_textedit_delete_selection(&mut b, &mut st);
    assert_eq!(b.as_slice(), chars_of("abf").as_slice());
    assert_eq!((st.cursor, st.select_start, st.select_end), (2, 2, 2));
    assert_eq!(stb_textedit_cut(&mut b, &mut st), 0);
    st.select_start = 0;
    st.select_end = 1;
    assert_eq!(stb_textedit_cut(&mut b, &mut st), 1);
    assert_eq!(b.as_slice(), chars_of("bf").as_slice());
}

#[test]
fn paste_replaces_selection() {
    let mut b = text_buffer("hello");
    let mut st = multi();
    st.select_start = 1;
    st.select_end = 4;
    assert_eq!(stb_textedit_paste_internal(&mut b, &mut st, &chars_of("EY")), 1);
    assert_eq!(b.as_slice(), chars_of("hEYo").as_slice());
    assert_eq!(st.cursor, 3);
    stb_text_undo(&mut b, &mut st);
    assert_eq!(b.as_slice(), chars_of("ho").as_slice());
    stb_text_undo(&mut b, &mut st);
    assert_eq!(b.as_slice(), chars_of("hello").as_slice());
}

#[test]
fn paste_failure_keeps_deletion() {
    let mut b = TextBuffer::new(6, 10, 20);
    assert!(STB_TEXTEDIT_INSERTCHARS(&mut b, 0, &chars_of("abcdef")));
    let mut st = multi();
    st.select_start = 0;
    st.select_end = 2;
    assert_eq!(stb_textedit_paste(&mut b, &mut st, &chars_of("WXYZ")), 0);
    assert_eq!(b.as_slice(), chars_of("cdef").as_slice());
    stb_text_undo(&mut b, &mut st);
    assert_eq!(b.as_slice(), chars_of("abcdef").as_slice());
}

#[test]
fn typing_in_insert_mode_replaces() {
    let mut b = text_buffer("abc");
    let mut st = multi();
    st.insert_mode = 1;
    st.cursor = 1;
    stb_textedit_text(&mut b, &mut st, &chars_of("X"));
    assert_eq!(b.as_slice(), chars_of("aXc").as_slice());
    assert_eq!(st.cursor, 2);
    stb_text_undo(&mut b, &mut st);
    assert_eq!(b.as_slice(), chars_of("abc").as_slice());
    assert_eq!(st.cursor, 2);
}

#[test]
fn single_line_refuses_newline() {
    let mut b = text_buffer("abc");
    let mut st = STB_TexteditState::new(true);
    st.cursor = 1;
    stb_textedit_text(&mut b, &mut st, &[STB_TEXTEDIT_NEWLINE]);
    assert_eq!(b.as_slice(), chars_of("abc").as_slice());
    assert_eq!(st.undostate.undo_point, 0);
}

#[test]
fn typing_past_capacity_changes_nothing() {
    let mut b = TextBuffer::new(3, 10, 20);
    assert!(STB_TEXTEDIT_INSERTCHARS(&mut b, 0, &chars_of("abc")));
    let mut st = multi();
    st.cursor = 3;
    stb_textedit_text(&mut b, &mut st, &chars_of("d"));
    assert_eq!(b.as_slice(), chars_of("abc").as_slice());
    assert_eq!(st.cursor, 3);
    assert_eq!(st.undostate.undo_point, 0);
}

#[test]
fn undo_then_redo_typed_text() {
    let mut b = text_buffer("ad");
    let mut st = multi();
    st.cursor = 1;
    stb_textedit_text(&mut b, &mut st, &chars_of("bc"));
    assert_eq!(b.as_slice(), chars_of("abcd").as_slice());
    assert_eq!(st.cursor, 3);
    stb_text_undo(&mut b, &mut st);
    assert_eq!(b.as_slice(), chars_of("ad").as_slice());
    assert_eq!(st.cursor, 1);
    stb_text_redo(&mut b, &mut st);
    assert_eq!(b.as_slice(), chars_of("abcd").as_slice());
    assert_eq!(st.cursor, 3);
}

#[test]
fn undo_that_cannot_keep_text_loses_redo() {
    let mut b = TextBuffer::new(5000, 10, 20);
    let mut st = multi();
    let long: Vec<i32> = (0..999).map(|i| 'a' as i32 + (i % 26)).collect();
    assert_eq!(stb_textedit_paste(&mut b, &mut st, &long), 1);
    stb_text_undo(&mut b, &mut st);
    assert_eq!(b.as_slice().len(), 0);
    let r = st.undostate.undo_rec[st.undostate.redo_point as usize];
    assert_eq!((r.insert_length, r.delete_length, r.char_storage), (0, 0, -1));
    stb_text_redo(&mut b, &mut st);
    assert_eq!(b.as_slice().len(), 0);
    assert_eq!(st.cursor, 0);
}

#[test]
fn undo_and_redo_with_empty_log_do_nothing() {
    let mut b = text_buffer("abc");
    let mut st = multi();
    st.cursor = 2;
    stb_text_undo(&mut b, &mut st);
    stb_text_redo(&mut b, &mut st);
    assert_eq!(b.as_slice(), chars_of("abc").as_slice());
    assert_eq!(st.cursor, 2);
}

#[test]
fn undo_record_outside_text_is_skipped() {
    let mut b = text_buffer("abcdef");
    let mut st = multi();
    stb_text_makeundo_insert(&mut st, 4, 2);
    STB_TEXTEDIT_DELETECHARS(&mut b, 0, 4);
    stb_text_undo(&mut b, &mut st);
    assert_eq!(b.as_slice(), chars_of("ef").as_slice());
    assert_eq!(st.undostate.undo_point, 1);
}

#[test]
fn record_helpers() {
    let b = text_buffer("abcdef");
    let mut st = multi();
    stb_text_makeundo_insert(&mut st, 2, 3);
    stb_text_makeundo_delete(&b, &mut st, 1, 2);
    stb_text_makeundo_replace(&b, &mut st, 3, 2, 4);
    let u = &st.undostate;
    assert_eq!(u.undo_point, 3);
    assert_eq!(u.undo_char_point, 4);
    let r0 = u.undo_rec[0];
    assert_eq!((r0.location, r0.insert_length, r0.delete_length, r0.char_storage), (2, 0, 3, -1));
    let r1 = u.undo_rec[1];
    assert_eq!((r1.location, r1.insert_length, r1.delete_length, r1.char_storage), (1, 2, 0, 0));
    assert_eq!(&u.undo_char[0..2], chars_of("bc").as_slice());
    let r2 = u.undo_rec[2];
    assert_eq!((r2.location, r2.insert_length, r2.delete_length, r2.char_storage), (3, 2, 4, 2));
    assert_eq!(&u.undo_char[2..4], chars_of("de").as_slice());
}

#[test]
fn state_reset() {
    let mut st = multi();
    st.cursor = 5;
    st.insert_mode = 1;
    st.undostate.undo_point = 3;
    stb_textedit_initialize_state(&mut st, 1);
    assert_eq!((st.cursor, st.select_start, st.select_end, st.insert_mode), (0, 0, 0, 0));
    assert_eq!((st.single_line, st.initialized), (1, 1));
    assert_eq!(st.undostate.undo_point, 0);
    assert_eq!(st.undostate.redo_point, STB_TEXTEDIT_UNDOSTATECOUNT);
    st.cursor = 2;
    stb_textedit_clear_state(&mut st, 0);
    assert_eq!((st.cursor, st.single_line), (0, 0));
}

#[test]
fn log_eviction_slides_characters() {
    let mut u = StbUndoState::new();
    assert_eq!(stb_text_createundo(&mut u, 0, 2, 0), Some(0));
    u.undo_char[0] = 7;
    u.undo_char[1] = 8;
    assert_eq!(stb_text_createundo(&mut u, 5, 0, 1), None);
    assert_eq!(stb_text_createundo(&mut u, 9, 3, 0), Some(2));
    u.undo_char[2] = 1;
    u.undo_char[3] = 2;
    u.undo_char[4] = 3;
    stb_textedit_discard_undo(&mut u);
    assert_eq!(u.undo_point, 2);
    assert_eq!(u.undo_char_point, 3);
    assert_eq!(u.undo_rec[0].location, 5);
    assert_eq!(u.undo_rec[1].char_storage, 0);
    assert_eq!(&u.undo_char[0..3], &[1, 2, 3]);
}

#[test]
fn redo_eviction_slides_characters() {
    let mut b = text_buffer("abcdef");
    let mut st = multi();
    st.cursor = 6;
    stb_textedit_text(&mut b, &mut st, &chars_of("gh"));
    stb_textedit_text(&mut b, &mut st, &chars_of("i"));
    stb_text_undo(&mut b, &mut st);
    stb_text_undo(&mut b, &mut st);
    let u = &mut st.undostate;
    assert_eq!(u.redo_point, STB_TEXTEDIT_UNDOSTATECOUNT - 2);
    assert_eq!(u.redo_char_point, STB_TEXTEDIT_UNDOCHARCOUNT - 3);
    stb_textedit_discard_redo(u);
    assert_eq!(u.redo_point, STB_TEXTEDIT_UNDOSTATECOUNT - 1);
    assert_eq!(u.redo_char_point, STB_TEXTEDIT_UNDOCHARCOUNT - 2);
    let r = u.undo_rec[u.redo_point as usize];
    assert_eq!(r.char_storage, STB_TEXTEDIT_UNDOCHARCOUNT - 2);
    assert_eq!(&u.undo_char[(STB_TEXTEDIT_UNDOCHARCOUNT - 2) as usize..], chars_of("gh").as_slice());
    stb_textedit_flush_redo(u);
    assert_eq!(u.redo_point, STB_TEXTEDIT_UNDOSTATECOUNT);
    assert_eq!(u.redo_char_point, STB_TEXTEDIT_UNDOCHARCOUNT);
}

#[test]
fn oversized_record_empties_log() {
    let mut u = StbUndoState::new();
    assert_eq!(stb_text_create_undo_record(&mut u, 3), Some(0));
    assert_eq!(stb_text_create_undo_record(&mut u, STB_TEXTEDIT_UNDOCHARCOUNT + 1), None);
    assert_eq!((u.undo_point, u.undo_char_point), (0, 0));
    assert_eq!(stb_text_createundo(&mut u, 0, STB_TEXTEDIT_UNDOCHARCOUNT + 5, 0), None);
}

#[test]
fn shift_left_then_right_restores_selection() {
    let mut b = text_buffer("abcdef");
    let mut st = multi();
    st.cursor = 3;
    st.select_start = 3;
    st.select_end = 3;
    stb_textedit_key(&mut b, &mut st, STB_TEXTEDIT_K_LEFT | STB_TEXTEDIT_K_SHIFT);
    assert_eq!((st.select_start, st.select_end), (3, 2));
    stb_textedit_key(&mut b, &mut st, STB_TEXTEDIT_K_RIGHT | STB_TEXTEDIT_K_SHIFT);
    assert_eq!((st.select_start, st.select_end), (3, 3));
    st.select_start = 1;
    st.select_end = 4;
    stb_textedit_key(&mut b, &mut st, STB_TEXTEDIT_K_LEFT | STB_TEXTEDIT_K_SHIFT);
    stb_textedit_key(&mut b, &mut st, STB_TEXTEDIT_K_RIGHT | STB_TEXTEDIT_K_SHIFT);
    assert_eq!((st.select_start, st.select_end), (1, 4));
}

#[test]
fn horizontal_keys_forget_column() {
    let mut b = text_buffer("abc\ndef\nghi");
    let mut st = multi();
    st.cursor = 2;
    stb_textedit_key(&mut b, &mut st, STB_TEXTEDIT_K_DOWN);
    assert_eq!(st.has_preferred_x, 1);
    stb_textedit_key(&mut b, &mut st, STB_TEXTEDIT_K_LEFT);
    assert_eq!(st.has_preferred_x, 0);
    stb_textedit_key(&mut b, &mut st, STB_TEXTEDIT_K_UP);
    stb_textedit_key(&mut b, &mut st, STB_TEXTEDIT_K_DELETE);
    assert_eq!(st.has_preferred_x, 0);
}

#[test]
fn up_keeps_column() {
    let mut b = text_buffer("abcd\nxyz\nlmno");
    let mut st = multi();
    st.cursor = 11;
    stb_textedit_key(&mut b, &mut st, STB_TEXTEDIT_K_UP);
    assert_eq!(st.cursor, 7);
    assert_eq!(st.preferred_x, 20);
    stb_textedit_key(&mut b, &mut st, STB_TEXTEDIT_K_UP);
    assert_eq!(st.cursor, 2);
    stb_textedit_key(&mut b, &mut st, STB_TEXTEDIT_K_UP);
    assert_eq!(st.cursor, 2);
}

#[test]
fn page_up_and_shift_down() {
    let mut b = text_buffer("ab\ncd\nef\ngh");
    let mut st = multi();
    st.row_count_per_page = 2;
    st.cursor = 10;
    stb_textedit_key(&mut b, &mut st, STB_TEXTEDIT_K_PGUP);
    assert_eq!(st.cursor, 4);
    stb_textedit_key(&mut b, &mut st, STB_TEXTEDIT_K_DOWN | STB_TEXTEDIT_K_SHIFT);
    assert_eq!((st.select_start, st.select_end, st.cursor), (4, 7, 7));
}

#[test]
fn single_line_up_and_down_move_sideways() {
    let mut b = text_buffer("abc");
    let mut st = STB_TexteditState::new(true);
    st.cursor = 1;
    stb_textedit_key(&mut b, &mut st, STB_TEXTEDIT_K_DOWN);
    assert_eq!(st.cursor, 2);
    stb_textedit_key(&mut b, &mut st, STB_TEXTEDIT_K_UP);
    stb_textedit_key(&mut b, &mut st, STB_TEXTEDIT_K_UP);
    assert_eq!(st.cursor, 0);
}

#[test]
fn deleting_at_the_edges() {
    let mut b = text_buffer("ab");
    let mut st = multi();
    st.cursor = 2;
    stb_textedit_key(&mut b, &mut st, STB_TEXTEDIT_K_DELETE);
    assert_eq!(b.as_slice(), chars_of("ab").as_slice());
    stb_textedit_key(&mut b, &mut st, STB_TEXTEDIT_K_BACKSPACE);
    assert_eq!(b.as_slice(), chars_of("a").as_slice());
    assert_eq!(st.cursor, 1);
    stb_textedit_key(&mut b, &mut st, STB_TEXTEDIT_K_TEXTSTART);
    stb_textedit_key(&mut b, &mut st, STB_TEXTEDIT_K_BACKSPACE);
    assert_eq!(b.as_slice(), chars_of("a").as_slice());
}

#[test]
fn line_and_text_keys() {
    let mut b = text_buffer("ab\ncdef\ng");
    let mut st = multi();
    st.cursor = 5;
    stb_textedit_key(&mut b, &mut st, STB_TEXTEDIT_K_LINESTART);
    assert_eq!(st.cursor, 3);
    stb_textedit_key(&mut b, &mut st, STB_TEXTEDIT_K_LINEEND | STB_TEXTEDIT_K_SHIFT);
    assert_eq!((st.select_start, st.select_end, st.cursor), (3, 7, 7));
    stb_textedit_key(&mut b, &mut st, STB_TEXTEDIT_K_LINEEND);
    assert_eq!((st.cursor, st.select_start, st.select_end), (7, 7, 7));
    stb_textedit_key(&mut b, &mut st, STB_TEXTEDIT_K_TEXTEND);
    assert_eq!((st.cursor, st.select_start, st.select_end), (9, 0, 0));
    stb_textedit_key(&mut b, &mut st, STB_TEXTEDIT_K_TEXTSTART | STB_TEXTEDIT_K_SHIFT);
    assert_eq!((st.cursor, st.select_start, st.select_end), (0, 9, 0));
    stb_textedit_key(&mut b, &mut st, STB_TEXTEDIT_K_LINESTART | STB_TEXTEDIT_K_SHIFT);
    assert_eq!(st.cursor, 0);
}

#[test]
fn keys_keep_cursor_in_text() {
    let mut b = text_buffer("ab\ncd");
    let mut st = multi();
    st.cursor = 40;
    st.select_start = 33;
    st.select_end = 33;
    let keys = [
        STB_TEXTEDIT_K_RIGHT,
        STB_TEXTEDIT_K_DELETE,
        STB_TEXTEDIT_K_UNDO,
        STB_TEXTEDIT_K_REDO,
        STB_TEXTEDIT_K_DOWN | STB_TEXTEDIT_K_SHIFT,
        'z' as i32,
        STB_TEXTEDIT_K_BACKSPACE,
        STB_TEXTEDIT_K_UP,
    ];
    for k in keys {
        stb_textedit_key(&mut b, &mut st, k);
        let n = b.as_slice().len() as i32;
        assert!(0 <= st.cursor && st.cursor <= n);
        assert!(0 <= st.select_start && st.select_start <= n);
        assert!(0 <= st.select_end && st.select_end <= n);
        assert!(st.undostate.undo_point <= st.undostate.redo_point);
        assert!(st.undostate.undo_char_point <= st.undostate.redo_char_point);
    }
}

#[test]
fn refused_newline_leaves_state_alone() {
    let mut b = text_buffer("abc");
    let mut st = STB_TexteditState::new(true);
    st.cursor = 9;
    st.has_preferred_x = 1;
    stb_textedit_text(&mut b, &mut st, &[STB_TEXTEDIT_NEWLINE]);
    assert_eq!((st.cursor, st.has_preferred_x), (9, 1));
}

#[test]
fn failed_insert_still_clears_column() {
    let mut b = TextBuffer::new(3, 10, 20);
    assert!(STB_TEXTEDIT_INSERTCHARS(&mut b, 0, &chars_of("abc")));
    let mut st = multi();
    st.insert_mode = 1;
    st.cursor = 1;
    st.has_preferred_x = 1;
    stb_textedit_text(&mut b, &mut st, &chars_of("XY"));
    assert_eq!(b.as_slice(), chars_of("ac").as_slice());
    assert_eq!((st.cursor, st.select_start, st.select_end, st.has_preferred_x), (1, 0, 0, 0));
    st.has_preferred_x = 1;
    st.select_start = 0;
    st.select_end = 1;
    assert_eq!(stb_textedit_paste(&mut b, &mut st, &chars_of("long")), 0);
    assert_eq!(b.as_slice(), chars_of("c").as_slice());
    assert_eq!((st.cursor, st.select_start, st.select_end, st.has_preferred_x), (0, 0, 0, 0));
}

#[test]
fn delete_key_records_undo() {
    let mut b = text_buffer("abc");
    let mut st = multi();
    st.cursor = 1;
    stb_textedit_key(&mut b, &mut st, STB_TEXTEDIT_K_DELETE);
    assert_eq!(b.as_slice(), chars_of("ac").as_slice());
    assert_eq!(st.cursor, 1);
    let r = st.undostate.undo_rec[0];
    assert_eq!((r.location, r.insert_length, r.delete_length), (1, 1, 0));
    assert_eq!(st.undostate.undo_char[r.char_storage as usize], 'b' as i32);
    stb_textedit_key(&mut b, &mut st, STB_TEXTEDIT_K_UNDO);
    assert_eq!(b.as_slice(), chars_of("abc").as_slice());
    assert_eq!((st.cursor, st.select_start, st.select_end), (2, 1, 2));
}

#[test]
fn page_up_with_selection_follows() {
    let mut b = text_buffer("ab\ncd\nef\ngh");
    let mut st = multi();
    st.row_count_per_page = 5;
    st.cursor = 10;
    stb_textedit_key(&mut b, &mut st, STB_TEXTEDIT_K_PGUP | STB_TEXTEDIT_K_SHIFT);
    assert_eq!((st.select_start, st.select_end, st.cursor), (10, 1, 1));
    assert_eq!((st.has_preferred_x, st.preferred_x), (1, 10));
}
