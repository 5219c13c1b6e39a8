//! Selection primitives and the edits that go through the undo log.
use vstd::prelude::*;
use crate::text::{
    TextBuffer, splice, next_newline, MAX_TEXT_LEN, STB_TEXTEDIT_NEWLINE,
    STB_TEXTEDIT_GETCHAR, STB_TEXTEDIT_STRINGLEN, STB_TEXTEDIT_DELETECHARS, STB_TEXTEDIT_INSERTCHARS,
};
use crate::undo::{UndoEntry, push_undo};
use crate::editor::{
    STB_TexteditState, same_metrics, same_settings, stb_text_makeundo_delete,
    stb_text_makeundo_insert, stb_text_makeundo_replace,
};

verus! {

/// `v` brought into `[0, n]`.
pub open spec fn clip(v: int, n: int) -> int {
    if v < 0 {
        0
    } else if v > n {
        n
    } else {
        v
    }
}

pub open spec fn has_selection(s: STB_TexteditState) -> bool {
    s.select_start != s.select_end
}

/// The lower end of the selection.
pub open spec fn sel_lo(s: STB_TexteditState) -> int {
    if s.select_start <= s.select_end {
        s.select_start as int
    } else {
        s.select_end as int
    }
}

/// The upper end of the selection.
pub open spec fn sel_hi(s: STB_TexteditState) -> int {
    if s.select_start <= s.select_end {
        s.select_end as int
    } else {
        s.select_start as int
    }
}

/// The state with cursor and selection brought into a text of `n`
/// characters; when that collapses a selection the cursor joins it.
pub open spec fn clamp_state(s: STB_TexteditState, n: int) -> STB_TexteditState {
    let ss = clip(s.select_start as int, n);
    let se = clip(s.select_end as int, n);
    let c = if has_selection(s) && ss == se {
        ss
    } else {
        clip(s.cursor as int, n)
    };
    STB_TexteditState { cursor: c as i32, select_start: ss as i32, select_end: se as i32, ..s }
}

/// Start of the line holding position `c`: just after the newline before
/// it, or 0.
pub open spec fn line_start(s: Seq<i32>, c: int) -> int
    decreases c,
{
    if c <= 0 {
        0
    } else if s[c - 1] == STB_TEXTEDIT_NEWLINE {
        c
    } else {
        line_start(s, c - 1)
    }
}

pub proof fn lemma_line_start(s: Seq<i32>, c: int)
    requires
        0 <= c <= s.len(),
    ensures
        0 <= line_start(s, c) <= c,
        line_start(s, c) > 0 ==> s[line_start(s, c) - 1] == STB_TEXTEDIT_NEWLINE,
        forall|j: int| line_start(s, c) <= j < c ==> s[j] != STB_TEXTEDIT_NEWLINE,
    decreases c,
{
    if c > 0 && s[c - 1] != STB_TEXTEDIT_NEWLINE {
        lemma_line_start(s, c - 1);
    }
}

/// Clamping twice is clamping once.
pub proof fn lemma_clamp_idempotent(s: STB_TexteditState, n: int)
    requires
        0 <= n,
    ensures
        clamp_state(clamp_state(s, n), n) == clamp_state(s, n),
{
}

/// Makes cursor and selection valid for the text if it was altered.
pub fn stb_textedit_clamp(str: &TextBuffer, state: &mut STB_TexteditState)
    requires
        str.wf(),
    ensures
        *final(state) == clamp_state(*old(state), str@.len() as int),
        final(state).in_range(str@.len() as int),
{
    let n = STB_TEXTEDIT_STRINGLEN(str);
    let had = state.select_start != state.select_end;
    if state.select_start > n {
        state.select_start = n;
    }
    if state.select_start < 0 {
        state.select_start = 0;
    }
    if state.select_end > n {
        state.select_end = n;
    }
    if state.select_end < 0 {
        state.select_end = 0;
    }
    if had && state.select_start == state.select_end {
        // clamping forced them to be equal: move the cursor to match
        state.cursor = state.select_start;
    }
    if state.cursor > n {
        state.cursor = n;
    }
    if state.cursor < 0 {
        state.cursor = 0;
    }
}

/// Deletes `len` characters at `location`, recording the deletion.
pub fn stb_textedit_delete(str: &mut TextBuffer, state: &mut STB_TexteditState, location: i32, len: i32)
    requires
        old(str).wf(),
        old(state).wf(),
        0 <= location,
        0 <= len,
        location + len <= old(str)@.len(),
    ensures
        final(str).wf(),
        final(state).wf(),
        same_metrics(*old(str), *final(str)),
        same_settings(*old(state), *final(state)),
        final(str)@ == splice(old(str)@, location as int, len as int, Seq::empty()),
        final(state).undostate.undo_log() == push_undo(
            old(state).undostate.undo_log(),
            UndoEntry {
                location: location as int,
                insert_length: len as int,
                delete_length: 0,
                text: old(str)@.subrange(location as int, location + len),
            },
        ),
        final(state).undostate.redo_log() == Seq::<UndoEntry>::empty(),
        final(state).cursor == old(state).cursor,
        final(state).select_start == old(state).select_start,
        final(state).select_end == old(state).select_end,
        final(state).has_preferred_x == 0,
        final(state).preferred_x == old(state).preferred_x,
{
    stb_text_makeundo_delete(str, state, location, len);
    STB_TEXTEDIT_DELETECHARS(str, location, len);
    state.has_preferred_x = 0;
}

/// Clamps, then deletes the selected text, if any, leaving the cursor where
/// it was.
pub fn stb_textedit_delete_selection(str: &mut TextBuffer, state: &mut STB_TexteditState)
    requires
        old(str).wf(),
        old(state).wf(),
    ensures
        final(str).wf(),
        final(state).wf(),
        same_metrics(*old(str), *final(str)),
        same_settings(*old(state), *final(state)),
        final(state).in_range(final(str)@.len() as int),
        final(state).preferred_x == old(state).preferred_x,
        ({
            let c = clamp_state(*old(state), old(str)@.len() as int);
            if has_selection(c) {
                &&& final(str)@ == splice(old(str)@, sel_lo(c), sel_hi(c) - sel_lo(c), Seq::empty())
                &&& final(state).cursor == sel_lo(c)
                &&& final(state).select_start == sel_lo(c)
                &&& final(state).select_end == sel_lo(c)
                &&& final(state).has_preferred_x == 0
                &&& final(state).undostate.undo_log() == push_undo(
                    old(state).undostate.undo_log(),
                    UndoEntry {
                        location: sel_lo(c),
                        insert_length: sel_hi(c) - sel_lo(c),
                        delete_length: 0,
                        text: old(str)@.subrange(sel_lo(c), sel_hi(c)),
                    },
                )
                &&& final(state).undostate.redo_log() == Seq::<UndoEntry>::empty()
            } else {
                final(str)@ == old(str)@ && *final(state) == c
            }
        }),
{
    stb_textedit_clamp(str, state);
    if state.select_start != state.select_end {
        if state.select_start < state.select_end {
            stb_textedit_delete(str, state, state.select_start, state.select_end - state.select_start);
            state.select_end = state.select_start;
            state.cursor = state.select_start;
        } else {
            stb_textedit_delete(str, state, state.select_end, state.select_start - state.select_end);
            state.select_start = state.select_end;
            state.cursor = state.select_end;
        }
        state.has_preferred_x = 0;
    }
}

/// Puts the selection's ends in order.
pub fn stb_textedit_sortselection(state: &mut STB_TexteditState)
    ensures
        final(state).select_start == sel_lo(*old(state)),
        final(state).select_end == sel_hi(*old(state)),
        *final(state) == (STB_TexteditState {
            select_start: final(state).select_start,
            select_end: final(state).select_end,
            ..*old(state)
        }),
{
    if state.select_end < state.select_start {
        let t = state.select_end;
        state.select_end = state.select_start;
        state.select_start = t;
    }
}

/// Collapses a selection to its first character, the cursor with it.
pub fn stb_textedit_move_to_first(state: &mut STB_TexteditState)
    ensures
        has_selection(*old(state)) ==> *final(state) == (STB_TexteditState {
            cursor: sel_lo(*old(state)) as i32,
            select_start: sel_lo(*old(state)) as i32,
            select_end: sel_lo(*old(state)) as i32,
            has_preferred_x: 0,
            ..*old(state)
        }),
        !has_selection(*old(state)) ==> *final(state) == *old(state),
{
    if state.select_start != state.select_end {
        stb_textedit_sortselection(state);
        state.cursor = state.select_start;
        state.select_end = state.select_start;
        state.has_preferred_x = 0;
    }
}

/// Collapses a selection to its end, clamped to the text, the cursor with
/// it.
pub fn stb_textedit_move_to_last(str: &TextBuffer, state: &mut STB_TexteditState)
    requires
        str.wf(),
    ensures
        has_selection(*old(state)) ==> {
            let e = clip(sel_hi(*old(state)), str@.len() as int);
            &&& final(state).cursor == e
            &&& final(state).select_start == e
            &&& final(state).select_end == e
            &&& final(state).has_preferred_x == 0
            &&& *final(state) == (STB_TexteditState {
                cursor: final(state).cursor,
                select_start: final(state).select_start,
                select_end: final(state).select_end,
                has_preferred_x: 0,
                ..*old(state)
            })
        },
        !has_selection(*old(state)) ==> *final(state) == *old(state),
{
    if state.select_start != state.select_end {
        stb_textedit_sortselection(state);
        stb_textedit_clamp(str, state);
        state.cursor = state.select_end;
        state.select_start = state.select_end;
        state.has_preferred_x = 0;
    }
}

/// Start of the line holding `cursor`; 0 in a single-line field.
pub fn stb_textedit_move_line_start(str: &TextBuffer, state: &STB_TexteditState, cursor: i32) -> (r: i32)
    requires
        str.wf(),
        0 <= cursor <= str@.len(),
    ensures
        r == if state.single_line != 0 {
            0
        } else {
            line_start(str@, cursor as int)
        },
{
    if state.single_line != 0 {
        return 0;
    }
    let mut c = cursor;
    while c > 0
        invariant
            0 <= c <= cursor,
            cursor <= str@.len(),
            line_start(str@, c as int) == line_start(str@, cursor as int),
        ensures
            line_start(str@, c as int) == c,
        decreases c,
    {
        let prev = c - 1;
        if STB_TEXTEDIT_GETCHAR(str, prev) == STB_TEXTEDIT_NEWLINE {
            assert(line_start(str@, c as int) == c);
            break;
        }
        c = prev;
    }
    c
}

/// Start of the line holding `cursor`; 0 in a single-line field.
pub fn STB_TEXTEDIT_MOVELINESTART(str: &TextBuffer, state: &STB_TexteditState, cursor: i32) -> (r: i32)
    requires
        str.wf(),
        0 <= cursor <= str@.len(),
    ensures
        r == if state.single_line != 0 {
            0
        } else {
            line_start(str@, cursor as int)
        },
{
    stb_textedit_move_line_start(str, state, cursor)
}

/// End of the line holding `cursor` (its newline, or the end of the text);
/// the end of the text in a single-line field.
pub fn stb_textedit_move_line_end(str: &TextBuffer, state: &STB_TexteditState, cursor: i32) -> (r: i32)
    requires
        str.wf(),
        0 <= cursor <= str@.len(),
    ensures
        r == if state.single_line != 0 {
            str@.len() as int
        } else {
            next_newline(str@, cursor as int)
        },
{
    let n = STB_TEXTEDIT_STRINGLEN(str);
    if state.single_line != 0 {
        return n;
    }
    let mut c = cursor;
    while c < n && STB_TEXTEDIT_GETCHAR(str, c) != STB_TEXTEDIT_NEWLINE
        invariant
            0 <= cursor <= c <= n,
            n == str@.len(),
            next_newline(str@, c as int) == next_newline(str@, cursor as int),
        decreases n - c,
    {
        c = c + 1;
    }
    c
}

/// End of the line holding `cursor`; the end of the text in a single-line
/// field.
pub fn STB_TEXTEDIT_MOVELINEEND(str: &TextBuffer, state: &STB_TexteditState, cursor: i32) -> (r: i32)
    requires
        str.wf(),
        0 <= cursor <= str@.len(),
    ensures
        r == if state.single_line != 0 {
            str@.len() as int
        } else {
            next_newline(str@, cursor as int)
        },
{
    stb_textedit_move_line_end(str, state, cursor)
}

/// Anchors an empty selection at the cursor, or puts the cursor at the
/// moving end of an existing one.
pub fn stb_textedit_prep_selection_at_cursor(state: &mut STB_TexteditState)
    ensures
        !has_selection(*old(state)) ==> *final(state) == (STB_TexteditState {
            select_start: old(state).cursor,
            select_end: old(state).cursor,
            ..*old(state)
        }),
        has_selection(*old(state)) ==> *final(state) == (STB_TexteditState {
            cursor: old(state).select_end,
            ..*old(state)
        }),
{
    if state.select_start == state.select_end {
        state.select_start = state.cursor;
        state.select_end = state.cursor;
    } else {
        state.cursor = state.select_end;
    }
}

/// The text once the (clamped) selection `c` is deleted from it.
pub open spec fn sel_deleted(s: Seq<i32>, c: STB_TexteditState) -> Seq<i32> {
    if has_selection(c) {
        splice(s, sel_lo(c), sel_hi(c) - sel_lo(c), Seq::empty())
    } else {
        s
    }
}

/// The cursor once the (clamped) selection `c` is deleted.
pub open spec fn sel_cursor(c: STB_TexteditState) -> int {
    if has_selection(c) {
        sel_lo(c)
    } else {
        c.cursor as int
    }
}

/// The undo log once the (clamped) selection `c` of text `s` is deleted.
pub open spec fn sel_log(log: Seq<UndoEntry>, s: Seq<i32>, c: STB_TexteditState) -> Seq<UndoEntry> {
    if has_selection(c) {
        push_undo(
            log,
            UndoEntry {
                location: sel_lo(c),
                insert_length: sel_hi(c) - sel_lo(c),
                delete_length: 0,
                text: s.subrange(sel_lo(c), sel_hi(c)),
            },
        )
    } else {
        log
    }
}

/// Where the (clamped) selection `c` collapses once its text is deleted.
pub open spec fn sel_anchor(c: STB_TexteditState) -> int {
    if has_selection(c) {
        sel_lo(c)
    } else {
        c.select_start as int
    }
}

/// Deletes the selection, if any; returns 1 when there was one.
pub fn stb_textedit_cut(str: &mut TextBuffer, state: &mut STB_TexteditState) -> (r: i32)
    requires
        old(str).wf(),
        old(state).wf(),
    ensures
        final(str).wf(),
        final(state).wf(),
        same_metrics(*old(str), *final(str)),
        same_settings(*old(state), *final(state)),
        r == if has_selection(*old(state)) {
            1i32
        } else {
            0i32
        },
        !has_selection(*old(state)) ==> final(str)@ == old(str)@ && *final(state) == *old(state),
        has_selection(*old(state)) ==> {
            let c = clamp_state(*old(state), old(str)@.len() as int);
            &&& final(str)@ == sel_deleted(old(str)@, c)
            &&& final(state).cursor == sel_cursor(c)
            &&& final(state).select_start == sel_anchor(c)
            &&& final(state).select_end == sel_anchor(c)
            &&& final(state).in_range(final(str)@.len() as int)
            &&& final(state).has_preferred_x == 0
            &&& final(state).undostate.undo_log() == sel_log(
                old(state).undostate.undo_log(),
                old(str)@,
                c,
            )
        },
{
    if state.select_start != state.select_end {
        stb_textedit_delete_selection(str, state);
        state.has_preferred_x = 0;
        return 1;
    }
    0
}

/// Replaces the selection with `text`. Returns 1 when the text fit; when it
/// did not, the selection stays deleted (undo brings it back).
pub fn stb_textedit_paste_internal(str: &mut TextBuffer, state: &mut STB_TexteditState, text: &[i32]) -> (r:
    i32)
    requires
        old(str).wf(),
        old(state).wf(),
        text@.len() <= MAX_TEXT_LEN,
    ensures
        final(str).wf(),
        final(state).wf(),
        same_metrics(*old(str), *final(str)),
        same_settings(*old(state), *final(state)),
        final(state).in_range(final(str)@.len() as int),
        ({
            let c = clamp_state(*old(state), old(str)@.len() as int);
            let d = sel_deleted(old(str)@, c);
            let at = sel_cursor(c);
            let log = sel_log(old(state).undostate.undo_log(), old(str)@, c);
            let ok = d.len() + text@.len() <= old(str).capacity;
            &&& final(state).select_start == sel_anchor(c)
            &&& final(state).select_end == sel_anchor(c)
            &&& r == if ok {
                1i32
            } else {
                0i32
            }
            &&& ok ==> final(str)@ == splice(d, at, 0, text@)
            &&& ok ==> final(state).cursor == at + text@.len()
            &&& final(state).has_preferred_x == 0
            &&& ok ==> final(state).undostate.undo_log() == push_undo(
                log,
                UndoEntry {
                    location: at,
                    insert_length: 0,
                    delete_length: text@.len() as int,
                    text: Seq::empty(),
                },
            )
            &&& !ok ==> final(str)@ == d && final(state).cursor == at
                && final(state).undostate.undo_log() == log
        }),
{
    let len = text.len() as i32;
    stb_textedit_clamp(str, state);
    stb_textedit_delete_selection(str, state);
    state.has_preferred_x = 0;
    if STB_TEXTEDIT_INSERTCHARS(str, state.cursor, text) {
        stb_text_makeundo_insert(state, state.cursor, len);
        state.cursor = state.cursor + len;
        return 1;
    }
    0
}

/// Replaces the selection with `text`; returns 1 when the text fit.
pub fn stb_textedit_paste(str: &mut TextBuffer, state: &mut STB_TexteditState, text: &[i32]) -> (r: i32)
    requires
        old(str).wf(),
        old(state).wf(),
        text@.len() <= MAX_TEXT_LEN,
    ensures
        final(str).wf(),
        final(state).wf(),
        same_metrics(*old(str), *final(str)),
        same_settings(*old(state), *final(state)),
        final(state).in_range(final(str)@.len() as int),
        ({
            let c = clamp_state(*old(state), old(str)@.len() as int);
            let d = sel_deleted(old(str)@, c);
            let at = sel_cursor(c);
            let log = sel_log(old(state).undostate.undo_log(), old(str)@, c);
            let ok = d.len() + text@.len() <= old(str).capacity;
            &&& final(state).select_start == sel_anchor(c)
            &&& final(state).select_end == sel_anchor(c)
            &&& r == if ok {
                1i32
            } else {
                0i32
            }
            &&& ok ==> final(str)@ == splice(d, at, 0, text@)
            &&& ok ==> final(state).cursor == at + text@.len()
            &&& final(state).has_preferred_x == 0
            &&& ok ==> final(state).undostate.undo_log() == push_undo(
                log,
                UndoEntry {
                    location: at,
                    insert_length: 0,
                    delete_length: text@.len() as int,
                    text: Seq::empty(),
                },
            )
            &&& !ok ==> final(str)@ == d && final(state).cursor == at
                && final(state).undostate.undo_log() == log
        }),
{
    stb_textedit_paste_internal(str, state, text)
}

/// Typing goes over the character at the cursor (insert mode, no
/// selection, cursor before the end).
pub open spec fn types_over(c: STB_TexteditState, n: int) -> bool {
    c.insert_mode != 0 && !has_selection(c) && c.cursor < n
}

/// Typing is refused: a newline in a single-line field.
pub open spec fn typing_refused(c: STB_TexteditState, t: Seq<i32>) -> bool {
    t[0] == STB_TEXTEDIT_NEWLINE && c.single_line != 0
}

/// The text after typing `t` into text `s` with the clamped state `c` and a
/// buffer of `capacity` characters.
pub open spec fn typed_text(s: Seq<i32>, c: STB_TexteditState, t: Seq<i32>, capacity: int) -> Seq<i32> {
    let n = s.len() as int;
    if typing_refused(c, t) {
        s
    } else {
        let d = if types_over(c, n) {
            splice(s, c.cursor as int, 1, Seq::empty())
        } else {
            sel_deleted(s, c)
        };
        let at = if types_over(c, n) {
            c.cursor as int
        } else {
            sel_cursor(c)
        };
        if d.len() + t.len() <= capacity {
            splice(d, at, 0, t)
        } else {
            d
        }
    }
}

/// The cursor after typing `t`, as for `typed_text`.
pub open spec fn typed_cursor(s: Seq<i32>, c: STB_TexteditState, t: Seq<i32>, capacity: int) -> int {
    let n = s.len() as int;
    if typing_refused(c, t) {
        c.cursor as int
    } else {
        let d = if types_over(c, n) {
            splice(s, c.cursor as int, 1, Seq::empty())
        } else {
            sel_deleted(s, c)
        };
        let at = if types_over(c, n) {
            c.cursor as int
        } else {
            sel_cursor(c)
        };
        if d.len() + t.len() <= capacity {
            at + t.len()
        } else {
            at
        }
    }
}

/// The undo log after typing `t`, as for `typed_text`.
pub open spec fn typed_log(
    log: Seq<UndoEntry>,
    s: Seq<i32>,
    c: STB_TexteditState,
    t: Seq<i32>,
    capacity: int,
) -> Seq<UndoEntry> {
    let n = s.len() as int;
    if typing_refused(c, t) {
        log
    } else if types_over(c, n) {
        push_undo(
            log,
            UndoEntry {
                location: c.cursor as int,
                insert_length: 1,
                delete_length: t.len() as int,
                text: s.subrange(c.cursor as int, c.cursor + 1),
            },
        )
    } else {
        let l = sel_log(log, s, c);
        if sel_deleted(s, c).len() + t.len() <= capacity {
            push_undo(
                l,
                UndoEntry {
                    location: sel_cursor(c),
                    insert_length: 0,
                    delete_length: t.len() as int,
                    text: Seq::empty(),
                },
            )
        } else {
            l
        }
    }
}

/// Types `text` at the cursor: over the character at the cursor in insert
/// mode, else in place of the selection. A newline is refused in a
/// single-line field.
pub fn stb_textedit_text(str: &mut TextBuffer, state: &mut STB_TexteditState, text: &[i32])
    requires
        old(str).wf(),
        old(state).wf(),
        1 <= text@.len() <= MAX_TEXT_LEN,
    ensures
        final(str).wf(),
        final(state).wf(),
        same_metrics(*old(str), *final(str)),
        same_settings(*old(state), *final(state)),
        final(state).in_range(final(str)@.len() as int) || typing_refused(*old(state), text@),
        typing_refused(*old(state), text@) ==> final(str)@ == old(str)@ && *final(state) == *old(
            state,
        ),
        ({
            let c = clamp_state(*old(state), old(str)@.len() as int);
            let cap = old(str).capacity as int;
            &&& final(str)@ == typed_text(old(str)@, c, text@, cap)
            &&& !typing_refused(c, text@) ==> final(state).cursor == typed_cursor(
                old(str)@,
                c,
                text@,
                cap,
            )
            &&& final(state).undostate.undo_log() == typed_log(
                old(state).undostate.undo_log(),
                old(str)@,
                c,
                text@,
                cap,
            )
            &&& !typing_refused(c, text@) ==> {
                &&& final(state).has_preferred_x == 0
                &&& final(state).select_start == clip(sel_anchor(c), final(str)@.len() as int)
                &&& final(state).select_end == clip(sel_anchor(c), final(str)@.len() as int)
            }
        }),
{
    let text_len = text.len() as i32;
    // a newline cannot go into a single-line field
    if text[0] == STB_TEXTEDIT_NEWLINE && state.single_line != 0 {
        return;
    }
    stb_textedit_clamp(str, state);
    if state.insert_mode != 0 && state.select_start == state.select_end && state.cursor
        < STB_TEXTEDIT_STRINGLEN(str) {
        stb_text_makeundo_replace(str, state, state.cursor, 1, text_len);
        STB_TEXTEDIT_DELETECHARS(str, state.cursor, 1);
        if STB_TEXTEDIT_INSERTCHARS(str, state.cursor, text) {
            state.cursor = state.cursor + text_len;
        }
    } else {
        stb_textedit_delete_selection(str, state);
        if STB_TEXTEDIT_INSERTCHARS(str, state.cursor, text) {
            stb_text_makeundo_insert(state, state.cursor, text_len);
            state.cursor = state.cursor + text_len;
        }
    }
    state.has_preferred_x = 0;
    stb_textedit_clamp(str, state);
}

} // verus!
