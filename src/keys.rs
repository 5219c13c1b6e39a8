//! Keyboard input: motion of the cursor and selection, deletion, undo and
//! redo, and typing.
use vstd::prelude::*;
use crate::text::{
    TextBuffer, StbTexteditRow, splice, next_newline, row_len, key_text, MAX_TEXT_LEN,
    MAX_GLYPH_SIZE, STB_TEXTEDIT_NEWLINE, STB_TEXTEDIT_GETCHAR, STB_TEXTEDIT_STRINGLEN,
    STB_TEXTEDIT_LAYOUTROW, STB_TEXTEDIT_GETWIDTH, STB_TEXTEDIT_KEYTOTEXT,
};
use crate::editor::{
    STB_TexteditState, same_metrics, same_settings, apply_entry, can_undo, can_redo,
    stb_text_undo, stb_text_redo, undo_inverse, redo_inverse, undo_keeps,
};
use crate::undo::{UndoEntry, push_undo, trim_redo, STB_TEXTEDIT_UNDOCHARCOUNT};
use crate::edit::{
    clip, has_selection, sel_lo, sel_hi, clamp_state, line_start, lemma_line_start,
    sel_deleted, stb_textedit_clamp, stb_textedit_delete, stb_textedit_delete_selection,
    stb_textedit_move_to_first, stb_textedit_move_to_last, stb_textedit_prep_selection_at_cursor,
    stb_textedit_text, typed_text, typed_cursor, typed_log, sel_log, STB_TEXTEDIT_MOVELINESTART,
    STB_TEXTEDIT_MOVELINEEND,
};
use crate::layout::{StbFindState, stb_textedit_find_charpos, lemma_row_len};
use vstd::arithmetic::div_mod::lemma_fundamental_div_mod_converse;

verus! {

/// keyboard input to move cursor left
pub const STB_TEXTEDIT_K_LEFT: i32 = 0x200000;
/// keyboard input to move cursor right
pub const STB_TEXTEDIT_K_RIGHT: i32 = 0x200001;
/// keyboard input to move cursor up
pub const STB_TEXTEDIT_K_UP: i32 = 0x200002;
/// keyboard input to move cursor down
pub const STB_TEXTEDIT_K_DOWN: i32 = 0x200003;
/// keyboard input to move cursor to start of line
pub const STB_TEXTEDIT_K_LINESTART: i32 = 0x200004;
/// keyboard input to move cursor to end of line
pub const STB_TEXTEDIT_K_LINEEND: i32 = 0x200005;
/// keyboard input to move cursor to start of text
pub const STB_TEXTEDIT_K_TEXTSTART: i32 = 0x200006;
/// keyboard input to move cursor to end of text
pub const STB_TEXTEDIT_K_TEXTEND: i32 = 0x200007;
/// keyboard input to delete selection or character under cursor
pub const STB_TEXTEDIT_K_DELETE: i32 = 0x200008;
/// keyboard input to delete selection or character left of cursor
pub const STB_TEXTEDIT_K_BACKSPACE: i32 = 0x200009;
/// keyboard input to perform undo
pub const STB_TEXTEDIT_K_UNDO: i32 = 0x20000A;
/// keyboard input to perform redo
pub const STB_TEXTEDIT_K_REDO: i32 = 0x20000B;
/// keyboard input to move cursor left one word
pub const STB_TEXTEDIT_K_WORDLEFT: i32 = 0x20000C;
/// keyboard input to move cursor right one word
pub const STB_TEXTEDIT_K_WORDRIGHT: i32 = 0x20000D;
/// keyboard input to move cursor up a page
pub const STB_TEXTEDIT_K_PGUP: i32 = 0x20000E;
/// keyboard input to move cursor down a page
pub const STB_TEXTEDIT_K_PGDOWN: i32 = 0x20000F;
/// bit combined with a motion key to extend the selection
pub const STB_TEXTEDIT_K_SHIFT: i32 = 0x400000;

/// Where a shift-modified motion grows the selection from.
pub open spec fn prep_start(c: STB_TexteditState) -> int {
    if has_selection(c) {
        c.select_start as int
    } else {
        c.cursor as int
    }
}

/// The end a shift-modified motion moves.
pub open spec fn prep_end(c: STB_TexteditState) -> int {
    if has_selection(c) {
        c.select_end as int
    } else {
        c.cursor as int
    }
}

/// Cursor, selection start and selection end.
pub open spec fn triple(s: STB_TexteditState) -> (int, int, int) {
    (s.cursor as int, s.select_start as int, s.select_end as int)
}

pub open spec fn left_result(c: STB_TexteditState) -> (int, int, int) {
    if has_selection(c) {
        (sel_lo(c), sel_lo(c), sel_lo(c))
    } else if c.cursor > 0 {
        (c.cursor - 1, c.select_start as int, c.select_end as int)
    } else {
        triple(c)
    }
}

pub open spec fn right_result(c: STB_TexteditState, n: int) -> (int, int, int) {
    if has_selection(c) {
        (sel_hi(c), sel_hi(c), sel_hi(c))
    } else {
        (clip(c.cursor + 1, n), c.select_start as int, c.select_end as int)
    }
}

pub open spec fn shift_left_result(c: STB_TexteditState) -> (int, int, int) {
    let e = if prep_end(c) > 0 {
        prep_end(c) - 1
    } else {
        prep_end(c)
    };
    (e, prep_start(c), e)
}

pub open spec fn shift_right_result(c: STB_TexteditState, n: int) -> (int, int, int) {
    let e = clip(prep_end(c) + 1, n);
    (e, prep_start(c), e)
}

/// The line start, or 0 in a single-line field.
pub open spec fn home_of(c: STB_TexteditState, s: Seq<i32>, p: int) -> int {
    if c.single_line != 0 {
        0
    } else {
        line_start(s, p)
    }
}

/// The line end, or the text's end in a single-line field.
pub open spec fn end_of(c: STB_TexteditState, s: Seq<i32>, p: int) -> int {
    if c.single_line != 0 {
        s.len() as int
    } else {
        next_newline(s, p)
    }
}

/// The state with cursor and selection set to `t`.
pub open spec fn with_triple(c: STB_TexteditState, t: (int, int, int)) -> STB_TexteditState {
    STB_TexteditState { cursor: t.0 as i32, select_start: t.1 as i32, select_end: t.2 as i32, ..c }
}

/// Extending the selection one character left, then one character right,
/// brings it back to where it was, when its moving end was not at the start
/// of the text.
pub proof fn lemma_shift_left_right(c: STB_TexteditState, n: int)
    requires
        c.in_range(n),
        prep_end(c) > 0,
    ensures
        ({
            let back = shift_right_result(with_triple(c, shift_left_result(c)), n);
            back.1 == prep_start(c) && back.2 == prep_end(c)
        }),
{
}

/// The column a vertical move lands on in a row of `nc` characters `w`
/// pixels wide: the first character whose right edge passes `goal`, or the
/// row's end.
pub open spec fn seek_col(goal: int, w: int, nc: int) -> int {
    if goal < 0 {
        0
    } else if goal / w >= nc {
        nc
    } else {
        goal / w
    }
}

/// The state a vertical move starts from: with shift, the selection
/// prepared at the cursor; without, a selection collapsed to its end (down)
/// or start (up).
pub open spec fn vertical_prep(c: STB_TexteditState, sh: bool, down: bool) -> STB_TexteditState {
    if sh {
        with_triple(c, (prep_end(c), prep_start(c), prep_end(c)))
    } else if has_selection(c) {
        let e = if down {
            sel_hi(c)
        } else {
            sel_lo(c)
        };
        STB_TexteditState { cursor: e as i32, select_start: e as i32, select_end: e as i32, has_preferred_x: 0, ..c }
    } else {
        c
    }
}

/// A single-line field with the cursor at the end of the text: the cursor
/// then counts as the end of the first row.
pub open spec fn at_single_end(p: STB_TexteditState, b: TextBuffer) -> bool {
    p.single_line != 0 && p.cursor == b@.len()
}

/// First character of the row holding the cursor.
pub open spec fn start_first(p: STB_TexteditState, b: TextBuffer) -> int {
    if at_single_end(p, b) {
        0
    } else {
        line_start(b@, p.cursor as int)
    }
}

/// Length of the row holding the cursor.
pub open spec fn start_length(p: STB_TexteditState, b: TextBuffer) -> int {
    let s = b@;
    if at_single_end(p, b) {
        s.len() as int
    } else if start_first(p, b) < s.len() {
        row_len(s, start_first(p, b))
    } else {
        0
    }
}

/// First character of the row before the one holding the cursor.
pub open spec fn start_prev(p: STB_TexteditState, b: TextBuffer) -> int {
    if at_single_end(p, b) || start_first(p, b) == 0 {
        0
    } else {
        line_start(b@, start_first(p, b) - 1)
    }
}

/// The cursor's own x position.
pub open spec fn start_x(p: STB_TexteditState, b: TextBuffer) -> int {
    if at_single_end(p, b) {
        row_len(b@, 0) * b.char_width
    } else {
        (p.cursor - start_first(p, b)) * b.char_width
    }
}

/// The x position a vertical move aims at: the remembered one, or the
/// cursor's own.
pub open spec fn goal_column(p: STB_TexteditState, b: TextBuffer) -> int {
    if p.has_preferred_x != 0 {
        p.preferred_x as int
    } else {
        start_x(p, b)
    }
}

/// The cursor after `k` rows down from the row at `first` of `length`
/// characters, aiming at `goal`; it stops at a row of no characters.
pub open spec fn down_steps(b: TextBuffer, first: int, length: int, cursor: int, goal: int, k: int) -> int
    decreases k,
{
    if k <= 0 || length == 0 {
        cursor
    } else {
        let start = first + length;
        let nc = row_len(b@, start);
        down_steps(b, start, nc, start + seek_col(goal, b.char_width as int, nc), goal, k - 1)
    }
}

/// The cursor after `k` rows up from the row at `first`, whose previous row
/// begins at `prev`, aiming at `goal`; it stops at the first row.
pub open spec fn up_steps(
    b: TextBuffer,
    single: bool,
    first: int,
    prev: int,
    cursor: int,
    goal: int,
    k: int,
) -> int
    decreases k,
{
    if k <= 0 || prev == first {
        cursor
    } else {
        let c = prev + seek_col(goal, b.char_width as int, row_len(b@, prev));
        let before = if single || prev == 0 {
            0
        } else {
            line_start(b@, prev - 1)
        };
        up_steps(b, single, prev, before, c, goal, k - 1)
    }
}

/// `f` is the state after moving `k` rows down from the prepared state `p`.
pub open spec fn down_done(p: STB_TexteditState, f: STB_TexteditState, b: TextBuffer, sel: bool, k: int) -> bool {
    let g = goal_column(p, b);
    let moved = k >= 1 && start_length(p, b) != 0;
    &&& f.cursor == down_steps(b, start_first(p, b), start_length(p, b), p.cursor as int, g, k)
    &&& f.select_start == p.select_start
    &&& moved ==> f.has_preferred_x == 1 && f.preferred_x == g && f.select_end == if sel {
        f.cursor
    } else {
        p.select_end
    }
    &&& !moved ==> f.has_preferred_x == p.has_preferred_x && f.preferred_x == p.preferred_x
        && f.select_end == p.select_end
}

/// `f` is the state after moving `k` rows up from the prepared state `p`.
pub open spec fn up_done(p: STB_TexteditState, f: STB_TexteditState, b: TextBuffer, sel: bool, k: int) -> bool {
    let g = goal_column(p, b);
    let moved = k >= 1 && start_prev(p, b) != start_first(p, b);
    &&& f.cursor == up_steps(
        b,
        p.single_line != 0,
        start_first(p, b),
        start_prev(p, b),
        p.cursor as int,
        g,
        k,
    )
    &&& f.select_start == p.select_start
    &&& moved ==> f.has_preferred_x == 1 && f.preferred_x == g && f.select_end == if sel {
        f.cursor
    } else {
        p.select_end
    }
    &&& !moved ==> f.has_preferred_x == p.has_preferred_x && f.preferred_x == p.preferred_x
        && f.select_end == p.select_end
}

/// Scans the row that begins at `start` for the character whose right edge
/// first passes `goal_x`, and returns it (the row's end when none does).
fn seek_in_row(str: &TextBuffer, start: i32, goal_x: i32) -> (r: (i32, i32))
    requires
        str.wf(),
        0 <= start <= str@.len(),
    ensures
        r.1 == row_len(str@, start as int),
        start <= r.0 <= start + r.1,
        start + r.1 <= str@.len(),
        r.0 == start + seek_col(goal_x as int, str.char_width as int, r.1 as int),
{
    let mut row = StbTexteditRow();
    STB_TEXTEDIT_LAYOUTROW(&mut row, str, start);
    proof {
        if start < str@.len() {
            lemma_row_len(str@, start as int);
        }
    }
    let w = str.char_width;
    let mut x: i32 = row.x0;
    let mut i: i32 = 0;
    let mut cursor = start;
    while i < row.num_chars
        invariant_except_break
            x == i * w,
        invariant
            0 <= i <= row.num_chars,
            0 <= start,
            cursor == start + i,
            row.num_chars == row_len(str@, start as int),
            start + row.num_chars <= str@.len(),
            str@.len() <= MAX_TEXT_LEN,
            1 <= w <= MAX_GLYPH_SIZE,
            w == str.char_width,
            i > 0 ==> i * w <= goal_x,
        ensures
            0 <= i <= row.num_chars,
            cursor == start + i,
            i > 0 ==> i * w <= goal_x,
            i == row.num_chars || (i + 1) * w > goal_x,
        decreases row.num_chars - i,
    {
        let dx = STB_TEXTEDIT_GETWIDTH(str, start, i);
        let next = cursor + 1;
        proof {
            assert(i * w + w <= MAX_TEXT_LEN * MAX_GLYPH_SIZE) by (nonlinear_arith)
                requires
                    0 <= i < MAX_TEXT_LEN,
                    1 <= w <= MAX_GLYPH_SIZE,
            ;
        }
        x = x + dx;
        if x > goal_x {
            proof {
                assert((i + 1) * w == x) by (nonlinear_arith)
                    requires
                        x == i * w + w,
                ;
            }
            break;
        }
        proof {
            assert(x == (i + 1) * w) by (nonlinear_arith)
                requires
                    x == i * w + w,
            ;
        }
        i = i + 1;
        cursor = next;
    }
    proof {
        let g = goal_x as int;
        let wi = w as int;
        let nc = row.num_chars as int;
        if g >= 0 {
            if i < nc {
                assert(i * wi <= g) by (nonlinear_arith)
                    requires
                        i > 0 ==> i * wi <= g,
                        0 <= g,
                        i >= 0,
                ;
                assert(g - i * wi < wi) by (nonlinear_arith)
                    requires
                        (i + 1) * wi > g,
                ;
                lemma_fundamental_div_mod_converse(g, wi, i as int, g - i * wi);
            } else {
                vstd::arithmetic::div_mod::lemma_div_pos_is_pos(g, wi);
                if nc > 0 {
                    assert(wi * nc <= g) by (nonlinear_arith)
                        requires
                            i == nc,
                            i > 0 ==> i * wi <= g,
                            nc > 0,
                    ;
                    vstd::arithmetic::div_mod::lemma_div_is_ordered(wi * nc, g, wi);
                    vstd::arithmetic::div_mod::lemma_div_multiples_vanish(nc, wi);
                    assert(g / wi >= nc);
                }
            }
        } else {
            assert(i == 0) by (nonlinear_arith)
                requires
                    i > 0 ==> i * wi <= g,
                    g < 0,
                    i >= 0,
                    wi >= 1,
            ;
        }
    }
    (cursor, row.num_chars)
}

/// Down or page down: moves the cursor `row_count` rows down, aiming at the
/// remembered column; with `sel` the selection follows.
fn move_down(str: &TextBuffer, state: &mut STB_TexteditState, sel: bool, row_count: i32)
    requires
        str.wf(),
        old(state).wf(),
        old(state).in_range(str@.len() as int),
    ensures
        final(state).wf(),
        final(state).in_range(str@.len() as int),
        final(state).undostate == old(state).undostate,
        same_settings(*old(state), *final(state)),
        down_done(vertical_prep(*old(state), sel, true), *final(state), *str, sel, row_count as int),
{
    if sel {
        stb_textedit_prep_selection_at_cursor(state);
    } else if state.select_start != state.select_end {
        stb_textedit_move_to_last(str, state);
    }
    let ghost u0 = old(state).undostate;
    // compute current position of cursor point
    stb_textedit_clamp(str, state);
    let n = STB_TEXTEDIT_STRINGLEN(str);
    let mut find = StbFindState();
    stb_textedit_find_charpos(&mut find, str, state.cursor, state.single_line as i32);
    proof {
        lemma_line_start(str@, state.cursor as int);
        let f = find.first_char as int;
        if f < n {
            lemma_row_len(str@, f);
        }
    }
    let ghost p = *state;
    let ghost f0 = find;
    let ghost goal = goal_column(p, *str);
    let ghost target = down_steps(*str, f0.first_char as int, f0.length as int, p.cursor as int, goal, row_count as int);
    assert(p == vertical_prep(*old(state), sel, true));
    assert(f0.first_char == start_first(p, *str) && f0.length == start_length(p, *str));
    let mut j: i32 = 0;
    while j < row_count
        invariant
            str.wf(),
            n == str@.len(),
            0 <= find.first_char,
            0 <= find.length,
            find.first_char + find.length <= n,
            0 <= j,
            j == 0 ==> find == f0 && *state == p,
            j == 0 || j <= row_count,
            j > 0 ==> row_count >= 1 && f0.length != 0,
            j > 0 ==> state.has_preferred_x == 1 && state.preferred_x == goal,
            state.select_start == p.select_start,
            state.select_end == if sel && j > 0 {
                state.cursor
            } else {
                p.select_end
            },
            f0.x == start_x(p, *str),
            goal == goal_column(p, *str),
            down_steps(*str, find.first_char as int, find.length as int, state.cursor as int, goal, row_count - j)
                == target,
            state.in_range(n as int),
            state.wf(),
            state.undostate == u0,
            same_settings(*old(state), *state),
        ensures
            state.in_range(n as int),
            state.wf(),
            state.undostate == u0,
            same_settings(*old(state), *state),
            j == 0 ==> *state == p && (row_count <= 0 || f0.length == 0),
            j > 0 ==> row_count >= 1 && f0.length != 0,
            j > 0 ==> state.has_preferred_x == 1 && state.preferred_x == goal,
            state.select_start == p.select_start,
            state.select_end == if sel && j > 0 {
                state.cursor
            } else {
                p.select_end
            },
            down_steps(*str, find.first_char as int, find.length as int, state.cursor as int, goal, row_count - j)
                == target,
            find.length == 0 || j >= row_count,
        decreases row_count - j,
    {
        let goal_x = if state.has_preferred_x != 0 {
            state.preferred_x
        } else {
            find.x
        };
        let start = find.first_char + find.length;
        if find.length == 0 {
            break;
        }
        // now find character position down a row
        let (c, num_chars) = seek_in_row(str, start, goal_x);
        assert(goal_x == goal);
        state.cursor = c;
        proof {
            lemma_clamp_in_range(*state, n as int);
        }
        stb_textedit_clamp(str, state);
        state.has_preferred_x = 1;
        state.preferred_x = goal_x;
        if sel {
            state.select_end = state.cursor;
        }
        // go to next line
        find.first_char = start;
        find.length = num_chars;
        j = j + 1;
    }
}

/// Up or page up: moves the cursor `row_count` rows up, aiming at the
/// remembered column; with `sel` the selection follows.
fn move_up(str: &TextBuffer, state: &mut STB_TexteditState, sel: bool, row_count: i32)
    requires
        str.wf(),
        old(state).wf(),
        old(state).in_range(str@.len() as int),
    ensures
        final(state).wf(),
        final(state).in_range(str@.len() as int),
        final(state).undostate == old(state).undostate,
        same_settings(*old(state), *final(state)),
        up_done(vertical_prep(*old(state), sel, false), *final(state), *str, sel, row_count as int),
{
    if sel {
        stb_textedit_prep_selection_at_cursor(state);
    } else if state.select_start != state.select_end {
        stb_textedit_move_to_first(state);
    }
    let ghost u0 = old(state).undostate;
    // compute current position of cursor point
    stb_textedit_clamp(str, state);
    let n = STB_TEXTEDIT_STRINGLEN(str);
    let mut find = StbFindState();
    stb_textedit_find_charpos(&mut find, str, state.cursor, state.single_line as i32);
    proof {
        lemma_line_start(str@, state.cursor as int);
        let f = find.first_char as int;
        if f > 0 {
            lemma_line_start(str@, f - 1);
        }
    }
    let ghost p = *state;
    let ghost f0 = find;
    let ghost goal = goal_column(p, *str);
    let ghost single = p.single_line != 0;
    let ghost target = up_steps(
        *str,
        single,
        f0.first_char as int,
        f0.prev_first as int,
        p.cursor as int,
        goal,
        row_count as int,
    );
    assert(p == vertical_prep(*old(state), sel, false));
    assert(f0.first_char == start_first(p, *str) && f0.prev_first == start_prev(p, *str));
    let mut j: i32 = 0;
    while j < row_count
        invariant
            str.wf(),
            n == str@.len(),
            0 <= find.prev_first <= find.first_char <= n,
            0 <= j,
            j == 0 ==> find == f0 && *state == p,
            j == 0 || j <= row_count,
            j > 0 ==> row_count >= 1 && f0.prev_first != f0.first_char,
            j > 0 ==> state.has_preferred_x == 1 && state.preferred_x == goal,
            state.select_start == p.select_start,
            state.select_end == if sel && j > 0 {
                state.cursor
            } else {
                p.select_end
            },
            f0.x == start_x(p, *str),
            goal == goal_column(p, *str),
            single == (state.single_line != 0),
            up_steps(
                *str,
                single,
                find.first_char as int,
                find.prev_first as int,
                state.cursor as int,
                goal,
                row_count - j,
            ) == target,
            state.in_range(n as int),
            state.wf(),
            state.undostate == u0,
            same_settings(*old(state), *state),
        ensures
            state.in_range(n as int),
            state.wf(),
            state.undostate == u0,
            same_settings(*old(state), *state),
            j == 0 ==> *state == p && (row_count <= 0 || f0.prev_first == f0.first_char),
            j > 0 ==> row_count >= 1 && f0.prev_first != f0.first_char,
            j > 0 ==> state.has_preferred_x == 1 && state.preferred_x == goal,
            state.select_start == p.select_start,
            state.select_end == if sel && j > 0 {
                state.cursor
            } else {
                p.select_end
            },
            up_steps(
                *str,
                single,
                find.first_char as int,
                find.prev_first as int,
                state.cursor as int,
                goal,
                row_count - j,
            ) == target,
            find.prev_first == find.first_char || j >= row_count,
        decreases row_count - j,
    {
        let goal_x = if state.has_preferred_x != 0 {
            state.preferred_x
        } else {
            find.x
        };
        // can only go up if there's a previous row
        if find.prev_first == find.first_char {
            break;
        }
        // now find character position up a row
        let (c, _num_chars) = seek_in_row(str, find.prev_first, goal_x);
        assert(goal_x == goal);
        state.cursor = c;
        proof {
            lemma_clamp_in_range(*state, n as int);
        }
        stb_textedit_clamp(str, state);
        state.has_preferred_x = 1;
        state.preferred_x = goal_x;
        if sel {
            state.select_end = state.cursor;
        }
        // go to previous line, scanning back for its start
        let ghost back = if find.prev_first > 0 {
            line_start(str@, find.prev_first - 1)
        } else {
            0
        };
        proof {
            if find.prev_first > 0 {
                lemma_line_start(str@, find.prev_first - 1);
            }
        }
        let mut prev_scan = if find.prev_first > 0 {
            find.prev_first - 1
        } else {
            0
        };
        while prev_scan > 0
            invariant
                0 <= prev_scan <= n,
                n == str@.len(),
                line_start(str@, prev_scan as int) == back,
            ensures
                0 <= prev_scan <= n,
                line_start(str@, prev_scan as int) == prev_scan,
                prev_scan == back,
            decreases prev_scan,
        {
            let prev = prev_scan - 1;
            if STB_TEXTEDIT_GETCHAR(str, prev) == STB_TEXTEDIT_NEWLINE {
                assert(line_start(str@, prev_scan as int) == prev_scan);
                break;
            }
            prev_scan = prev;
        }
        proof {
            lemma_line_start(str@, prev_scan as int);
        }
        find.first_char = find.prev_first;
        find.prev_first = STB_TEXTEDIT_MOVELINESTART(str, state, prev_scan);
        j = j + 1;
    }
}

/// The key is combined with the shift bit.
pub open spec fn key_shifted(key: i32) -> bool {
    key & STB_TEXTEDIT_K_SHIFT != 0
}

/// The command a key stands for once the shift bit is taken out; in a
/// single-line field up and down stand for left and right.
pub open spec fn key_command(key: i32, single_line: u8) -> i32 {
    let b = key & !STB_TEXTEDIT_K_SHIFT;
    if single_line != 0 && b == STB_TEXTEDIT_K_UP {
        STB_TEXTEDIT_K_LEFT
    } else if single_line != 0 && b == STB_TEXTEDIT_K_DOWN {
        STB_TEXTEDIT_K_RIGHT
    } else {
        b
    }
}

/// The key moves the cursor horizontally, or deletes, or undoes or redoes.
pub open spec fn is_horizontal_or_edit(b: i32, sh: bool) -> bool {
    ||| b == STB_TEXTEDIT_K_LEFT
    ||| b == STB_TEXTEDIT_K_RIGHT
    ||| b == STB_TEXTEDIT_K_LINESTART
    ||| b == STB_TEXTEDIT_K_LINEEND
    ||| b == STB_TEXTEDIT_K_TEXTSTART
    ||| b == STB_TEXTEDIT_K_TEXTEND
    ||| b == STB_TEXTEDIT_K_DELETE
    ||| b == STB_TEXTEDIT_K_BACKSPACE
    ||| (b == STB_TEXTEDIT_K_UNDO && !sh)
    ||| (b == STB_TEXTEDIT_K_REDO && !sh)
}

/// Cursor and selection after a key that only moves them.
pub open spec fn motion_result(b: i32, sh: bool, c: STB_TexteditState, s: Seq<i32>) -> (int, int, int) {
    let n = s.len() as int;
    if b == STB_TEXTEDIT_K_LEFT && !sh {
        left_result(c)
    } else if b == STB_TEXTEDIT_K_RIGHT && !sh {
        right_result(c, n)
    } else if b == STB_TEXTEDIT_K_LEFT {
        shift_left_result(c)
    } else if b == STB_TEXTEDIT_K_RIGHT {
        shift_right_result(c, n)
    } else if b == STB_TEXTEDIT_K_TEXTSTART && !sh {
        (0, 0, 0)
    } else if b == STB_TEXTEDIT_K_TEXTEND && !sh {
        (n, 0, 0)
    } else if b == STB_TEXTEDIT_K_TEXTSTART {
        (0, prep_start(c), 0)
    } else if b == STB_TEXTEDIT_K_TEXTEND {
        (n, prep_start(c), n)
    } else if b == STB_TEXTEDIT_K_LINESTART && !sh {
        let m = if has_selection(c) {
            (sel_lo(c), sel_lo(c), sel_lo(c))
        } else {
            triple(c)
        };
        (home_of(c, s, m.0), m.1, m.2)
    } else if b == STB_TEXTEDIT_K_LINEEND && !sh {
        let m = if has_selection(c) {
            (sel_hi(c), sel_hi(c), sel_hi(c))
        } else {
            triple(c)
        };
        (end_of(c, s, m.0), m.1, m.2)
    } else if b == STB_TEXTEDIT_K_LINESTART {
        let h = home_of(c, s, prep_end(c));
        (h, prep_start(c), h)
    } else {
        let e = end_of(c, s, prep_end(c));
        (e, prep_start(c), e)
    }
}

/// A clamped state lies in the text.
pub proof fn lemma_clamp_in_range(s: STB_TexteditState, n: int)
    requires
        0 <= n,
    ensures
        clamp_state(s, n).in_range(n),
        s.in_range(n) ==> clamp_state(s, n) == s,
{
}

/// The key only moves the cursor and selection, along a line or the text.
pub open spec fn is_motion(b: i32) -> bool {
    ||| b == STB_TEXTEDIT_K_LEFT
    ||| b == STB_TEXTEDIT_K_RIGHT
    ||| b == STB_TEXTEDIT_K_LINESTART
    ||| b == STB_TEXTEDIT_K_LINEEND
    ||| b == STB_TEXTEDIT_K_TEXTSTART
    ||| b == STB_TEXTEDIT_K_TEXTEND
}

/// A key that only moves the cursor and selection.
fn key_motion(str: &TextBuffer, state: &mut STB_TexteditState, b: i32, sel: bool)
    requires
        str.wf(),
        old(state).wf(),
        old(state).in_range(str@.len() as int),
        is_motion(b),
    ensures
        final(state).wf(),
        final(state).in_range(str@.len() as int),
        final(state).undostate == old(state).undostate,
        same_settings(*old(state), *final(state)),
        final(state).has_preferred_x == 0,
        triple(*final(state)) == motion_result(b, sel, *old(state), str@),
{
    proof {
        lemma_line_start(str@, old(state).cursor as int);
        lemma_line_start(str@, sel_lo(*old(state)));
        lemma_line_start(str@, prep_end(*old(state)));
        crate::text::lemma_next_newline(str@, old(state).cursor as int);
        crate::text::lemma_next_newline(str@, sel_hi(*old(state)));
        crate::text::lemma_next_newline(str@, prep_end(*old(state)));
    }
    if b == STB_TEXTEDIT_K_LEFT && !sel {
        // with a selection, move the cursor to its start
        if state.select_start != state.select_end {
            stb_textedit_move_to_first(state);
        } else if state.cursor > 0 {
            state.cursor = state.cursor - 1;
        }
    } else if b == STB_TEXTEDIT_K_RIGHT && !sel {
        // with a selection, move the cursor to its end
        if state.select_start != state.select_end {
            stb_textedit_move_to_last(str, state);
        } else {
            state.cursor = state.cursor + 1;
        }
        stb_textedit_clamp(str, state);
    } else if b == STB_TEXTEDIT_K_LEFT {
        stb_textedit_clamp(str, state);
        stb_textedit_prep_selection_at_cursor(state);
        // move selection left
        if state.select_end > 0 {
            state.select_end = state.select_end - 1;
        }
        state.cursor = state.select_end;
    } else if b == STB_TEXTEDIT_K_RIGHT {
        stb_textedit_prep_selection_at_cursor(state);
        // move selection right
        state.select_end = state.select_end + 1;
        stb_textedit_clamp(str, state);
        state.cursor = state.select_end;
    } else if b == STB_TEXTEDIT_K_TEXTSTART && !sel {
        state.cursor = 0;
        state.select_start = 0;
        state.select_end = 0;
    } else if b == STB_TEXTEDIT_K_TEXTEND && !sel {
        state.cursor = STB_TEXTEDIT_STRINGLEN(str);
        state.select_start = 0;
        state.select_end = 0;
    } else if b == STB_TEXTEDIT_K_TEXTSTART {
        stb_textedit_prep_selection_at_cursor(state);
        state.cursor = 0;
        state.select_end = 0;
    } else if b == STB_TEXTEDIT_K_TEXTEND {
        stb_textedit_prep_selection_at_cursor(state);
        state.cursor = STB_TEXTEDIT_STRINGLEN(str);
        state.select_end = STB_TEXTEDIT_STRINGLEN(str);
    } else if b == STB_TEXTEDIT_K_LINESTART && !sel {
        stb_textedit_clamp(str, state);
        stb_textedit_move_to_first(state);
        state.cursor = STB_TEXTEDIT_MOVELINESTART(str, state, state.cursor);
    } else if b == STB_TEXTEDIT_K_LINEEND && !sel {
        stb_textedit_clamp(str, state);
        stb_textedit_move_to_last(str, state);
        state.cursor = STB_TEXTEDIT_MOVELINEEND(str, state, state.cursor);
    } else if b == STB_TEXTEDIT_K_LINESTART {
        stb_textedit_clamp(str, state);
        stb_textedit_prep_selection_at_cursor(state);
        state.cursor = STB_TEXTEDIT_MOVELINESTART(str, state, state.cursor);
        state.select_end = state.cursor;
    } else {
        stb_textedit_clamp(str, state);
        stb_textedit_prep_selection_at_cursor(state);
        state.cursor = STB_TEXTEDIT_MOVELINEEND(str, state, state.cursor);
        state.select_end = state.cursor;
    }
    state.has_preferred_x = 0;
}

/// The undo log after delete (`back` false) or backspace (`back` true).
pub open spec fn delete_key_log(log: Seq<UndoEntry>, s: Seq<i32>, c: STB_TexteditState, back: bool) -> Seq<
    UndoEntry,
> {
    let at = if back {
        c.cursor - 1
    } else {
        c.cursor as int
    };
    if has_selection(c) {
        sel_log(log, s, c)
    } else if 0 <= at < s.len() {
        push_undo(
            log,
            UndoEntry { location: at, insert_length: 1, delete_length: 0, text: s.subrange(at, at + 1) },
        )
    } else {
        log
    }
}

/// Delete (`back` false) or backspace (`back` true): removes the selection,
/// or the character at or before the cursor.
fn key_delete(str: &mut TextBuffer, state: &mut STB_TexteditState, back: bool)
    requires
        old(str).wf(),
        old(state).wf(),
        old(state).in_range(old(str)@.len() as int),
    ensures
        final(str).wf(),
        final(state).wf(),
        same_metrics(*old(str), *final(str)),
        same_settings(*old(state), *final(state)),
        final(state).in_range(final(str)@.len() as int),
        final(state).has_preferred_x == 0,
        ({
            let s = old(str)@;
            let n = s.len() as int;
            let c = *old(state);
            &&& !back ==> final(str)@ == if has_selection(c) {
                sel_deleted(s, c)
            } else if c.cursor < n {
                splice(s, c.cursor as int, 1, Seq::empty())
            } else {
                s
            }
            &&& !back ==> final(state).cursor == if has_selection(c) {
                sel_lo(c)
            } else {
                c.cursor as int
            }
            &&& final(state).undostate.undo_log() == delete_key_log(
                old(state).undostate.undo_log(),
                s,
                c,
                back,
            )
            &&& back ==> final(str)@ == if has_selection(c) {
                sel_deleted(s, c)
            } else if c.cursor > 0 {
                splice(s, c.cursor - 1, 1, Seq::empty())
            } else {
                s
            } && final(state).cursor == if has_selection(c) {
                sel_lo(c)
            } else if c.cursor > 0 {
                c.cursor - 1
            } else {
                c.cursor as int
            }
        }),
{
    proof {
        assert(clamp_state(*old(state), old(str)@.len() as int) == *old(state));
    }
    if state.select_start != state.select_end {
        stb_textedit_delete_selection(str, state);
    } else if !back {
        let n = STB_TEXTEDIT_STRINGLEN(str);
        if state.cursor < n {
            stb_textedit_delete(str, state, state.cursor, 1);
            stb_textedit_clamp(str, state);
        }
    } else {
        if state.cursor > 0 {
            let prev = state.cursor - 1;
            stb_textedit_delete(str, state, prev, 1);
            state.cursor = prev;
            stb_textedit_clamp(str, state);
        }
    }
    state.has_preferred_x = 0;
}

/// Handles one key press.
pub fn stb_textedit_key(str: &mut TextBuffer, state: &mut STB_TexteditState, key: i32)
    requires
        old(str).wf(),
        old(state).wf(),
    ensures
        final(str).wf(),
        final(state).wf(),
        same_metrics(*old(str), *final(str)),
        same_settings(*old(state), *final(state)),
        final(state).in_range(final(str)@.len() as int),
        ({
            let s = old(str)@;
            let n = s.len() as int;
            let c = clamp_state(*old(state), n);
            let sh = key_shifted(key);
            let b = key_command(key, old(state).single_line);
            let u = old(state).undostate;
            &&& is_horizontal_or_edit(b, sh) ==> final(state).has_preferred_x == 0
            &&& is_motion(b) ==> final(str)@ == s && final(state).undostate == u && triple(*final(state))
                == motion_result(b, sh, c, s)
            &&& (b == STB_TEXTEDIT_K_UP || b == STB_TEXTEDIT_K_DOWN || b == STB_TEXTEDIT_K_PGUP || b
                == STB_TEXTEDIT_K_PGDOWN) ==> final(str)@ == s && final(state).undostate == u
            &&& (b == STB_TEXTEDIT_K_DOWN || b == STB_TEXTEDIT_K_PGDOWN) ==> down_done(
                vertical_prep(c, sh, true),
                *final(state),
                *old(str),
                sh,
                if b == STB_TEXTEDIT_K_PGDOWN {
                    c.row_count_per_page as int
                } else {
                    1
                },
            )
            &&& (b == STB_TEXTEDIT_K_UP || b == STB_TEXTEDIT_K_PGUP) ==> up_done(
                vertical_prep(c, sh, false),
                *final(state),
                *old(str),
                sh,
                if b == STB_TEXTEDIT_K_PGUP {
                    c.row_count_per_page as int
                } else {
                    1
                },
            )
            &&& b == STB_TEXTEDIT_K_DELETE ==> final(str)@ == if has_selection(c) {
                sel_deleted(s, c)
            } else if c.cursor < n {
                splice(s, c.cursor as int, 1, Seq::empty())
            } else {
                s
            } && final(state).cursor == if has_selection(c) {
                sel_lo(c)
            } else {
                c.cursor as int
            }
            &&& (b == STB_TEXTEDIT_K_DELETE || b == STB_TEXTEDIT_K_BACKSPACE)
                ==> final(state).undostate.undo_log() == delete_key_log(
                u.undo_log(),
                s,
                c,
                b == STB_TEXTEDIT_K_BACKSPACE,
            )
            &&& b == STB_TEXTEDIT_K_BACKSPACE ==> final(str)@ == if has_selection(c) {
                sel_deleted(s, c)
            } else if c.cursor > 0 {
                splice(s, c.cursor - 1, 1, Seq::empty())
            } else {
                s
            } && final(state).cursor == if has_selection(c) {
                sel_lo(c)
            } else if c.cursor > 0 {
                c.cursor - 1
            } else {
                c.cursor as int
            }
            &&& b == STB_TEXTEDIT_K_UNDO && !sh ==> final(str)@ == if can_undo(u, s) {
                apply_entry(s, u.undo_log().last(), old(str).capacity as int)
            } else {
                s
            }
            &&& b == STB_TEXTEDIT_K_UNDO && !sh && !can_undo(u, s) ==> *final(state) == (
            STB_TexteditState { has_preferred_x: 0, ..c })
            &&& b == STB_TEXTEDIT_K_UNDO && !sh && can_undo(u, s) ==> {
                let e = u.undo_log().last();
                let keep = undo_keeps(e, u.undo_char_point as int);
                &&& triple(*final(state)) == triple(
                    clamp_state(
                        with_triple(
                            c,
                            (e.location + e.insert_length, e.location, e.location + e.insert_length),
                        ),
                        final(str)@.len() as int,
                    ),
                )
                &&& final(state).undostate.undo_log() == u.undo_log().drop_last()
                &&& final(state).undostate.redo_log() == seq![undo_inverse(e, s, keep)] + if keep {
                    trim_redo(
                        u.redo_log(),
                        STB_TEXTEDIT_UNDOCHARCOUNT - u.undo_char_point - e.delete_length,
                    )
                } else {
                    u.redo_log()
                }
            }
            &&& b == STB_TEXTEDIT_K_REDO && !sh ==> final(str)@ == if can_redo(u, s) {
                apply_entry(s, u.redo_log()[0], old(str).capacity as int)
            } else {
                s
            }
            &&& b == STB_TEXTEDIT_K_REDO && !sh && !can_redo(u, s) ==> *final(state) == (
            STB_TexteditState { has_preferred_x: 0, ..c })
            &&& b == STB_TEXTEDIT_K_REDO && !sh && can_redo(u, s) ==> {
                let e = u.redo_log()[0];
                let p = e.location + e.insert_length;
                &&& triple(*final(state)) == triple(
                    clamp_state(with_triple(c, (p, p, p)), final(str)@.len() as int),
                )
                &&& final(state).undostate.undo_log() == u.undo_log().push(
                    redo_inverse(e, s, u.undo_char_point + e.delete_length <= u.redo_char_point),
                )
                &&& final(state).undostate.redo_log() == u.redo_log().drop_first()
            }
            &&& !is_motion(b) && !(b == STB_TEXTEDIT_K_UP || b == STB_TEXTEDIT_K_DOWN || b
                == STB_TEXTEDIT_K_PGUP || b == STB_TEXTEDIT_K_PGDOWN || b == STB_TEXTEDIT_K_DELETE
                || b == STB_TEXTEDIT_K_BACKSPACE || (b == STB_TEXTEDIT_K_UNDO && !sh) || (b
                == STB_TEXTEDIT_K_REDO && !sh)) ==> if key_text(key) > 0 {
                &&& final(str)@ == typed_text(s, c, seq![key], old(str).capacity as int)
                &&& final(state).cursor == typed_cursor(s, c, seq![key], old(str).capacity as int)
                &&& final(state).undostate.undo_log() == typed_log(
                    u.undo_log(),
                    s,
                    c,
                    seq![key],
                    old(str).capacity as int,
                )
            } else {
                final(str)@ == s && *final(state) == c
            }
        }),
{
    stb_textedit_clamp(str, state);
    let ghost c = *state;
    let sel = (key & STB_TEXTEDIT_K_SHIFT) != 0;
    let mut b = key & !STB_TEXTEDIT_K_SHIFT;
    if state.single_line != 0 {
        // up and down in a single-line field behave like left and right
        if b == STB_TEXTEDIT_K_UP {
            b = STB_TEXTEDIT_K_LEFT;
        } else if b == STB_TEXTEDIT_K_DOWN {
            b = STB_TEXTEDIT_K_RIGHT;
        }
    }
    proof {
        lemma_clamp_in_range(*old(state), old(str)@.len() as int);
    }
    if b == STB_TEXTEDIT_K_UNDO && !sel {
        stb_text_undo(str, state);
        stb_textedit_clamp(str, state);
        state.has_preferred_x = 0;
    } else if b == STB_TEXTEDIT_K_REDO && !sel {
        stb_text_redo(str, state);
        stb_textedit_clamp(str, state);
        state.has_preferred_x = 0;
    } else if b == STB_TEXTEDIT_K_LEFT || b == STB_TEXTEDIT_K_RIGHT || b == STB_TEXTEDIT_K_LINESTART
        || b == STB_TEXTEDIT_K_LINEEND || b == STB_TEXTEDIT_K_TEXTSTART || b
        == STB_TEXTEDIT_K_TEXTEND {
        key_motion(str, state, b, sel);
    } else if b == STB_TEXTEDIT_K_DOWN || b == STB_TEXTEDIT_K_PGDOWN {
        let row_count = if b == STB_TEXTEDIT_K_PGDOWN {
            state.row_count_per_page
        } else {
            1
        };
        move_down(str, state, sel, row_count);
    } else if b == STB_TEXTEDIT_K_UP || b == STB_TEXTEDIT_K_PGUP {
        let row_count = if b == STB_TEXTEDIT_K_PGUP {
            state.row_count_per_page
        } else {
            1
        };
        move_up(str, state, sel, row_count);
    } else if b == STB_TEXTEDIT_K_DELETE || b == STB_TEXTEDIT_K_BACKSPACE {
        key_delete(str, state, b == STB_TEXTEDIT_K_BACKSPACE);
    } else {
        let ch = STB_TEXTEDIT_KEYTOTEXT(key);
        if ch > 0 {
            let typed = vec![ch];
            proof {
                lemma_clamp_in_range(c, str@.len() as int);
                assert(typed@ =~= seq![key]);
            }
            stb_textedit_text(str, state, typed.as_slice());
        }
    }
}

} // verus!
