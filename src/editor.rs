//! The editor state and the operations that apply, record, undo and redo
//! edits.
use vstd::prelude::*;
use crate::text::{
    TextBuffer, splice, MAX_TEXT_LEN, STB_TEXTEDIT_GETCHAR, STB_TEXTEDIT_STRINGLEN,
    STB_TEXTEDIT_DELETECHARS, STB_TEXTEDIT_INSERTCHARS,
};
use crate::undo::{
    StbUndoState, StbUndoRecord, UndoEntry, STB_TEXTEDIT_UNDOSTATECOUNT, STB_TEXTEDIT_UNDOCHARCOUNT,
    push_undo, entry_of, record_ok, trim_redo, same_recs, same_chars,
    lemma_storage_in_bounds, lemma_fill_top, lemma_log_totals, lemma_undo_pop, lemma_undo_push,
    lemma_redo_pop, lemma_redo_push, stb_text_createundo, stb_textedit_discard_redo,
};

verus! {

/// Per-text-field state: cursor, selection, modes and the undo log.
#[derive(Debug, Clone)]
pub struct STB_TexteditState {
    /// position of the text cursor within the string
    pub cursor: i32,
    /// selection start point; start and end equal means no selection, and
    /// start may be past end (the anchor of a drag)
    pub select_start: i32,
    /// selection end point
    pub select_end: i32,
    /// typing replaces the character at the cursor when set
    pub insert_mode: u8,
    /// rows moved by page up and page down
    pub row_count_per_page: i32,
    pub cursor_at_end_of_line: u8,
    pub initialized: u8,
    pub has_preferred_x: u8,
    pub single_line: u8,
    /// where vertical motion tries to land along x
    pub preferred_x: i32,
    pub undostate: StbUndoState,
}

/// The rest of two buffers is the same but for their characters.
pub open spec fn same_metrics(a: TextBuffer, b: TextBuffer) -> bool {
    &&& a.capacity == b.capacity
    &&& a.char_width == b.char_width
    &&& a.row_height == b.row_height
}

/// Fields of the state that neither the cursor, the selection nor the undo
/// log hold.
pub open spec fn same_settings(a: STB_TexteditState, b: STB_TexteditState) -> bool {
    &&& a.insert_mode == b.insert_mode
    &&& a.row_count_per_page == b.row_count_per_page
    &&& a.cursor_at_end_of_line == b.cursor_at_end_of_line
    &&& a.initialized == b.initialized
    &&& a.single_line == b.single_line
}

/// Everything but the undo log is the same in both.
pub open spec fn same_but_log(a: STB_TexteditState, b: STB_TexteditState) -> bool {
    &&& same_settings(a, b)
    &&& a.cursor == b.cursor
    &&& a.select_start == b.select_start
    &&& a.select_end == b.select_end
    &&& a.has_preferred_x == b.has_preferred_x
    &&& a.preferred_x == b.preferred_x
}

/// `s` after applying entry `e`: its deletion, then its insertion when the
/// buffer's capacity allows.
pub open spec fn apply_entry(s: Seq<i32>, e: UndoEntry, capacity: int) -> Seq<i32> {
    let d = splice(s, e.location, e.delete_length, Seq::empty());
    if e.insert_length > 0 && d.len() + e.text.len() <= capacity {
        splice(d, e.location, 0, e.text)
    } else {
        d
    }
}

/// The entry lies inside the text.
pub open spec fn entry_fits(e: UndoEntry, s: Seq<i32>) -> bool {
    e.location + e.delete_length <= s.len()
}

/// Undo keeps the characters it deletes when there is any and room for them.
pub open spec fn undo_keeps(e: UndoEntry, undo_char_point: int) -> bool {
    e.delete_length > 0 && undo_char_point + e.delete_length < STB_TEXTEDIT_UNDOCHARCOUNT
}

/// The redo entry made when undoing `e` on text `s`.
pub open spec fn undo_inverse(e: UndoEntry, s: Seq<i32>, keep: bool) -> UndoEntry {
    UndoEntry {
        location: e.location,
        insert_length: if keep {
            e.delete_length
        } else {
            0
        },
        delete_length: e.insert_length,
        text: if keep {
            s.subrange(e.location, e.location + e.delete_length)
        } else {
            Seq::empty()
        },
    }
}

/// The undo entry made when redoing `e` on text `s`; `room` says whether the
/// deleted characters fit beside the redo characters.
pub open spec fn redo_inverse(e: UndoEntry, s: Seq<i32>, room: bool) -> UndoEntry {
    if e.delete_length == 0 {
        UndoEntry { location: e.location, insert_length: 0, delete_length: e.insert_length, text: Seq::empty() }
    } else if room {
        UndoEntry {
            location: e.location,
            insert_length: e.delete_length,
            delete_length: e.insert_length,
            text: s.subrange(e.location, e.location + e.delete_length),
        }
    } else {
        UndoEntry { location: e.location, insert_length: 0, delete_length: 0, text: Seq::empty() }
    }
}

impl STB_TexteditState {
    pub open spec fn wf(&self) -> bool {
        self.undostate.wf()
    }

    /// Cursor and selection lie within a text of `len` characters.
    pub open spec fn in_range(&self, len: int) -> bool {
        &&& 0 <= self.cursor <= len
        &&& 0 <= self.select_start <= len
        &&& 0 <= self.select_end <= len
    }

    /// A fresh state for a field of one line or of many.
    pub fn new(is_single_line: bool) -> (r: STB_TexteditState)
        ensures
            r.wf(),
            r.in_range(0),
            r.single_line == (if is_single_line { 1u8 } else { 0u8 }),
            r.undostate.undo_log() == Seq::<UndoEntry>::empty(),
            r.undostate.redo_log() == Seq::<UndoEntry>::empty(),
    {
        let mut s = STB_TexteditState {
            cursor: 0,
            select_start: 0,
            select_end: 0,
            insert_mode: 0,
            row_count_per_page: 0,
            cursor_at_end_of_line: 0,
            initialized: 0,
            has_preferred_x: 0,
            single_line: 0,
            preferred_x: 0,
            undostate: StbUndoState::new(),
        };
        stb_textedit_initialize_state(&mut s, if is_single_line { 1 } else { 0 });
        s
    }
}

/// Resets cursor, selection, modes and the undo log.
pub fn stb_textedit_clear_state(state: &mut STB_TexteditState, is_single_line: i32)
    requires
        old(state).undostate.undo_rec.len() == STB_TEXTEDIT_UNDOSTATECOUNT,
        old(state).undostate.undo_char.len() == STB_TEXTEDIT_UNDOCHARCOUNT,
    ensures
        final(state).wf(),
        final(state).in_range(0),
        final(state).cursor == 0 && final(state).select_start == 0 && final(state).select_end == 0,
        final(state).has_preferred_x == 0 && final(state).preferred_x == 0,
        final(state).insert_mode == 0 && final(state).row_count_per_page == 0,
        final(state).initialized == 1,
        final(state).single_line == is_single_line as u8,
        final(state).undostate.undo_log() == Seq::<UndoEntry>::empty(),
        final(state).undostate.redo_log() == Seq::<UndoEntry>::empty(),
{
    state.undostate.undo_point = 0;
    state.undostate.undo_char_point = 0;
    state.undostate.redo_point = STB_TEXTEDIT_UNDOSTATECOUNT;
    state.undostate.redo_char_point = STB_TEXTEDIT_UNDOCHARCOUNT;
    state.select_end = 0;
    state.select_start = 0;
    state.cursor = 0;
    state.has_preferred_x = 0;
    state.preferred_x = 0;
    state.cursor_at_end_of_line = 0;
    state.initialized = 1;
    state.single_line = is_single_line as u8;
    state.insert_mode = 0;
    state.row_count_per_page = 0;
    assert(state.undostate.undo_log() =~= Seq::<UndoEntry>::empty());
    assert(state.undostate.redo_log() =~= Seq::<UndoEntry>::empty());
}

/// Sets up a state for a field of one line (`is_single_line` not 0) or of
/// many.
pub fn stb_textedit_initialize_state(state: &mut STB_TexteditState, is_single_line: i32)
    requires
        old(state).undostate.undo_rec.len() == STB_TEXTEDIT_UNDOSTATECOUNT,
        old(state).undostate.undo_char.len() == STB_TEXTEDIT_UNDOCHARCOUNT,
    ensures
        final(state).wf(),
        final(state).in_range(0),
        final(state).cursor == 0 && final(state).select_start == 0 && final(state).select_end == 0,
        final(state).has_preferred_x == 0 && final(state).preferred_x == 0,
        final(state).insert_mode == 0 && final(state).row_count_per_page == 0,
        final(state).initialized == 1,
        final(state).single_line == is_single_line as u8,
        final(state).undostate.undo_log() == Seq::<UndoEntry>::empty(),
        final(state).undostate.redo_log() == Seq::<UndoEntry>::empty(),
{
    stb_textedit_clear_state(state, is_single_line);
}

/// Copies `length` characters of `str` from `location` into the slot of the
/// most recent undo record.
fn store_text(u: &mut StbUndoState, str: &TextBuffer, location: i32, length: i32)
    requires
        old(u).wf(),
        old(u).undo_point > 0,
        old(u).top().char_storage >= 0,
        old(u).top().insert_length == length,
        str.wf(),
        0 <= location,
        location + length <= str@.len(),
    ensures
        final(u).wf(),
        final(u).undo_point == old(u).undo_point,
        final(u).redo_point == old(u).redo_point,
        final(u).undo_char_point == old(u).undo_char_point,
        final(u).redo_char_point == old(u).redo_char_point,
        final(u).undo_rec == old(u).undo_rec,
        final(u).undo_log().drop_last() == old(u).undo_log().drop_last(),
        final(u).undo_log().last() == entry_of(old(u).top(), final(u).undo_char@),
        entry_of(old(u).top(), final(u).undo_char@).text == str@.subrange(
            location as int,
            location + length,
        ),
        final(u).redo_log() == old(u).redo_log(),
{
    let ghost o = *u;
    proof {
        lemma_storage_in_bounds(o);
        assert(record_ok(o.undo_rec@[o.undo_point - 1]));
    }
    let p = u.undo_rec[(u.undo_point - 1) as usize].char_storage;
    let mut i: i32 = 0;
    while i < length
        invariant
            0 <= i <= length,
            0 <= p,
            p + length <= STB_TEXTEDIT_UNDOCHARCOUNT,
            p == o.top().char_storage,
            length == o.top().insert_length,
            0 <= location,
            location + length <= str@.len(),
            str.wf(),
            u.undo_rec == o.undo_rec,
            u.undo_point == o.undo_point,
            u.redo_point == o.redo_point,
            u.undo_char_point == o.undo_char_point,
            u.redo_char_point == o.redo_char_point,
            u.undo_char@.len() == o.undo_char@.len(),
            o.undo_char@.len() == STB_TEXTEDIT_UNDOCHARCOUNT,
            forall|k: int|
                0 <= k < o.undo_char@.len() && !(p <= k < p + i) ==> #[trigger] u.undo_char@[k]
                    == o.undo_char@[k],
            forall|t: int| 0 <= t < i ==> #[trigger] u.undo_char@[p + t] == str@[location + t],
        decreases length - i,
    {
        let c = STB_TEXTEDIT_GETCHAR(str, location + i);
        u.undo_char.set((p + i) as usize, c);
        i = i + 1;
    }
    proof {
        lemma_fill_top(o, *u);
        assert(u.undo_char@.subrange(p as int, p + length) =~= str@.subrange(
            location as int,
            location + length,
        )) by {
            assert forall|t: int| 0 <= t < length implies #[trigger] u.undo_char@.subrange(p as int, p + length)[t]
                == str@.subrange(location as int, location + length)[t] by {
                assert(u.undo_char@[p + t] == str@[location + t]);
            }
        }
    }
}

/// Records an insertion of `length` characters at `location`: undoing it
/// deletes them.
pub fn stb_text_makeundo_insert(state: &mut STB_TexteditState, location: i32, length: i32)
    requires
        old(state).wf(),
        0 <= location <= MAX_TEXT_LEN,
        0 <= length <= MAX_TEXT_LEN,
    ensures
        final(state).wf(),
        final(state).undostate.undo_log() == push_undo(
            old(state).undostate.undo_log(),
            UndoEntry { location: location as int, insert_length: 0, delete_length: length as int, text: Seq::empty() },
        ),
        final(state).undostate.redo_log() == Seq::<UndoEntry>::empty(),
        final(state).cursor == old(state).cursor,
        final(state).select_start == old(state).select_start,
        final(state).select_end == old(state).select_end,
        final(state).has_preferred_x == old(state).has_preferred_x,
        final(state).preferred_x == old(state).preferred_x,
        same_settings(*old(state), *final(state)),
{
    let ghost log0 = state.undostate.undo_log();
    stb_text_createundo(&mut state.undostate, location, 0, length);
    assert(state.undostate.undo_log() =~= push_undo(
        log0,
        UndoEntry { location: location as int, insert_length: 0, delete_length: length as int, text: Seq::empty() },
    ));
}

/// Records a deletion of the `length` characters of `str` at `location`:
/// undoing it inserts them again.
pub fn stb_text_makeundo_delete(str: &TextBuffer, state: &mut STB_TexteditState, location: i32, length: i32)
    requires
        old(state).wf(),
        str.wf(),
        0 <= location,
        0 <= length,
        location + length <= str@.len(),
    ensures
        final(state).wf(),
        final(state).undostate.undo_log() == push_undo(
            old(state).undostate.undo_log(),
            UndoEntry {
                location: location as int,
                insert_length: length as int,
                delete_length: 0,
                text: str@.subrange(location as int, location + length),
            },
        ),
        final(state).undostate.redo_log() == Seq::<UndoEntry>::empty(),
        final(state).cursor == old(state).cursor,
        final(state).select_start == old(state).select_start,
        final(state).select_end == old(state).select_end,
        final(state).has_preferred_x == old(state).has_preferred_x,
        final(state).preferred_x == old(state).preferred_x,
        same_settings(*old(state), *final(state)),
{
    stb_text_makeundo_replace(str, state, location, length, 0);
}

/// Records that the `old_length` characters of `str` at `location` are
/// replaced by `new_length` ones: undoing it deletes the new ones and
/// inserts the old ones again.
pub fn stb_text_makeundo_replace(
    str: &TextBuffer,
    state: &mut STB_TexteditState,
    location: i32,
    old_length: i32,
    new_length: i32,
)
    requires
        old(state).wf(),
        str.wf(),
        0 <= location,
        0 <= old_length,
        0 <= new_length <= MAX_TEXT_LEN,
        location + old_length <= str@.len(),
    ensures
        final(state).wf(),
        final(state).undostate.undo_log() == push_undo(
            old(state).undostate.undo_log(),
            UndoEntry {
                location: location as int,
                insert_length: old_length as int,
                delete_length: new_length as int,
                text: str@.subrange(location as int, location + old_length),
            },
        ),
        final(state).undostate.redo_log() == Seq::<UndoEntry>::empty(),
        final(state).cursor == old(state).cursor,
        final(state).select_start == old(state).select_start,
        final(state).select_end == old(state).select_end,
        final(state).has_preferred_x == old(state).has_preferred_x,
        final(state).preferred_x == old(state).preferred_x,
        same_settings(*old(state), *final(state)),
{
    let ghost log0 = state.undostate.undo_log();
    let ghost e = UndoEntry {
        location: location as int,
        insert_length: old_length as int,
        delete_length: new_length as int,
        text: str@.subrange(location as int, location + old_length),
    };
    let p = stb_text_createundo(&mut state.undostate, location, old_length, new_length);
    if old_length > STB_TEXTEDIT_UNDOCHARCOUNT {
        return;
    }
    proof {
        assert(record_ok(state.undostate.undo_rec@[state.undostate.undo_point - 1]));
    }
    if old_length > 0 {
        let ghost mid = state.undostate.undo_log();
        store_text(&mut state.undostate, str, location, old_length);
        assert(state.undostate.undo_log() =~= mid.drop_last().push(e));
    } else {
        assert(e.text =~= Seq::<i32>::empty());
        assert(state.undostate.undo_log().last() == entry_of(state.undostate.top(), state.undostate.undo_char@));
        assert(state.undostate.undo_log().last() == e);
        assert(state.undostate.undo_log() =~= state.undostate.undo_log().drop_last().push(e));
    }
}

/// Undo has a record to apply and it lies inside the text.
pub open spec fn can_undo(u: StbUndoState, s: Seq<i32>) -> bool {
    u.undo_point > 0 && entry_fits(u.undo_log().last(), s)
}

/// Redo has a record to apply and it lies inside the text.
pub open spec fn can_redo(u: StbUndoState, s: Seq<i32>) -> bool {
    u.redo_point < STB_TEXTEDIT_UNDOSTATECOUNT && entry_fits(u.redo_log()[0], s)
}

/// Copies the characters that a record keeps.
fn record_text(u: &StbUndoState, r: StbUndoRecord) -> (v: Vec<i32>)
    requires
        u.wf(),
        record_ok(r),
        r.char_storage >= 0 ==> 0 <= r.char_storage && r.char_storage + r.insert_length
            <= STB_TEXTEDIT_UNDOCHARCOUNT,
    ensures
        v@ == entry_of(r, u.undo_char@).text,
{
    let mut v: Vec<i32> = Vec::new();
    if r.char_storage < 0 {
        assert(v@ =~= entry_of(r, u.undo_char@).text);
        return v;
    }
    let mut i: i32 = 0;
    while i < r.insert_length
        invariant
            0 <= i <= r.insert_length,
            0 <= r.char_storage,
            r.char_storage + r.insert_length <= STB_TEXTEDIT_UNDOCHARCOUNT,
            u.undo_char@.len() == STB_TEXTEDIT_UNDOCHARCOUNT,
            v@ == u.undo_char@.subrange(r.char_storage as int, r.char_storage + i),
        decreases r.insert_length - i,
    {
        v.push(u.undo_char[(r.char_storage + i) as usize]);
        i = i + 1;
        assert(v@ =~= u.undo_char@.subrange(r.char_storage as int, r.char_storage + i));
    }
    v
}

/// Applies the most recent undo record to the text, selecting the
/// characters it inserts again, and turns it into a redo record, which
/// keeps the characters the undo deletes when there is room (discarding the
/// oldest redo records as needed). Does nothing when there
/// is no record or it does not lie inside the text.
pub fn stb_text_undo(str: &mut TextBuffer, state: &mut STB_TexteditState)
    requires
        old(str).wf(),
        old(state).wf(),
    ensures
        final(str).wf(),
        final(state).wf(),
        same_metrics(*old(str), *final(str)),
        same_settings(*old(state), *final(state)),
        final(state).has_preferred_x == old(state).has_preferred_x,
        final(state).preferred_x == old(state).preferred_x,
        !can_undo(old(state).undostate, old(str)@) ==> final(str)@ == old(str)@ && *final(state)
            == *old(state),
        can_undo(old(state).undostate, old(str)@) ==> {
            let u = old(state).undostate;
            let e = u.undo_log().last();
            let keep = undo_keeps(e, u.undo_char_point as int);
            &&& final(str)@ == apply_entry(old(str)@, e, old(str).capacity as int)
            &&& final(state).cursor == e.location + e.insert_length
            &&& final(state).select_start == e.location
            &&& final(state).select_end == e.location + e.insert_length
            &&& final(state).undostate.undo_log() == u.undo_log().drop_last()
            &&& final(state).undostate.redo_log() == seq![undo_inverse(e, old(str)@, keep)] + if keep {
                trim_redo(
                    u.redo_log(),
                    STB_TEXTEDIT_UNDOCHARCOUNT - u.undo_char_point - e.delete_length,
                )
            } else {
                u.redo_log()
            }
        },
{
    if state.undostate.undo_point == 0 {
        return;
    }
    let ghost s0 = state.undostate;
    let ghost st0 = *state;
    let ghost t0 = str@;
    proof {
        lemma_storage_in_bounds(s0);
        lemma_log_totals(s0);
        assert(record_ok(s0.undo_rec@[s0.undo_point - 1]));
    }
    let u = state.undostate.undo_rec[(state.undostate.undo_point - 1) as usize];
    let ghost e = s0.undo_log().last();
    assert(e == entry_of(u, s0.undo_char@));
    let n = STB_TEXTEDIT_STRINGLEN(str);
    if u.location > n - u.delete_length {
        return;
    }
    let payload = record_text(&state.undostate, u);
    let ghost keep = undo_keeps(e, s0.undo_char_point as int);
    let mut r = StbUndoRecord {
        location: u.location,
        insert_length: u.delete_length,
        delete_length: u.insert_length,
        char_storage: -1,
    };
    let ghost mut base = s0;
    if u.delete_length != 0 {
        if state.undostate.undo_char_point + u.delete_length >= STB_TEXTEDIT_UNDOCHARCOUNT {
            // no room to keep the deleted characters: the redo will lose them
            r.insert_length = 0;
        } else {
            let ghost room = STB_TEXTEDIT_UNDOCHARCOUNT - s0.undo_char_point - u.delete_length;
            while state.undostate.undo_char_point + u.delete_length > state.undostate.redo_char_point
                invariant
                    state.undostate.wf(),
                    same_but_log(st0, *state),
                    state.undostate.undo_point == s0.undo_point,
                    state.undostate.undo_char_point == s0.undo_char_point,
                    state.undostate.redo_point >= s0.redo_point,
                    state.undostate.undo_log() == s0.undo_log(),
                    0 < u.delete_length,
                    s0.undo_char_point + u.delete_length < STB_TEXTEDIT_UNDOCHARCOUNT,
                    room == STB_TEXTEDIT_UNDOCHARCOUNT - s0.undo_char_point - u.delete_length,
                    trim_redo(state.undostate.redo_log(), room) == trim_redo(s0.redo_log(), room),
                decreases STB_TEXTEDIT_UNDOSTATECOUNT - state.undostate.redo_point,
            {
                proof {
                    lemma_log_totals(state.undostate);
                    if state.undostate.redo_point == STB_TEXTEDIT_UNDOSTATECOUNT {
                        assert(state.undostate.redo_log().len() == 0);
                    }
                }
                let ghost before = state.undostate.redo_log();
                stb_textedit_discard_redo(&mut state.undostate);
                assert(state.undostate.redo_log() == before.drop_last());
            }
            proof {
                lemma_log_totals(state.undostate);
            }
            assert(trim_redo(state.undostate.redo_log(), room) == state.undostate.redo_log());
            proof {
                base = state.undostate;
                lemma_storage_in_bounds(base);
            }
            let ghost s1 = base;
            let start = state.undostate.redo_char_point - u.delete_length;
            r.char_storage = start;
            state.undostate.redo_char_point = start;
            let mut i: i32 = 0;
            while i < u.delete_length
                invariant
                    0 <= i <= u.delete_length,
                    0 <= s1.undo_char_point <= start,
                    start + u.delete_length == s1.redo_char_point,
                    s1.redo_char_point <= STB_TEXTEDIT_UNDOCHARCOUNT,
                    u.location + u.delete_length <= str@.len(),
                    0 <= u.location,
                    str.wf(),
                    str@ == t0,
                    same_but_log(st0, *state),
                    state.undostate.undo_rec == s1.undo_rec,
                    state.undostate.undo_point == s1.undo_point,
                    state.undostate.redo_point == s1.redo_point,
                    state.undostate.undo_char_point == s1.undo_char_point,
                    state.undostate.redo_char_point == start,
                    state.undostate.undo_char@.len() == STB_TEXTEDIT_UNDOCHARCOUNT,
                    s1.undo_char@.len() == STB_TEXTEDIT_UNDOCHARCOUNT,
                    forall|k: int|
                        0 <= k < STB_TEXTEDIT_UNDOCHARCOUNT && !(start <= k < start + i)
                            ==> #[trigger] state.undostate.undo_char@[k] == s1.undo_char@[k],
                    forall|t: int|
                        0 <= t < i ==> #[trigger] state.undostate.undo_char@[start + t] == t0[u.location
                            + t],
                decreases u.delete_length - i,
            {
                let c = STB_TEXTEDIT_GETCHAR(str, u.location + i);
                state.undostate.undo_char.set((start + i) as usize, c);
                i = i + 1;
            }
            assert(state.undostate.undo_char@.subrange(start as int, start + u.delete_length)
                =~= t0.subrange(u.location as int, u.location + u.delete_length)) by {
                assert forall|t: int| 0 <= t < u.delete_length implies #[trigger] state.undostate.undo_char@.subrange(
                    start as int,
                    start + u.delete_length,
                )[t] == t0.subrange(u.location as int, u.location + u.delete_length)[t] by {
                    assert(state.undostate.undo_char@[start + t] == t0[u.location + t]);
                }
            }
        }
        STB_TEXTEDIT_DELETECHARS(str, u.location, u.delete_length);
    }
    let ghost s1 = base;
    let slot = state.undostate.redo_point - 1;
    state.undostate.undo_rec.set(slot as usize, r);
    if u.insert_length != 0 {
        STB_TEXTEDIT_INSERTCHARS(str, u.location, payload.as_slice());
        state.undostate.undo_char_point = state.undostate.undo_char_point - u.insert_length;
    }
    state.cursor = u.location + u.insert_length;
    // the restored characters come back selected
    state.select_start = u.location;
    state.select_end = u.location + u.insert_length;
    state.undostate.undo_point = state.undostate.undo_point - 1;
    state.undostate.redo_point = state.undostate.redo_point - 1;
    proof {
        let sf = state.undostate;
        assert(s1.undo_point == s0.undo_point);
        assert(sf.undo_rec@[slot as int] == r);
        assert(same_recs(s1, sf, 0, sf.undo_point as int));
        assert(same_chars(s1, sf, 0, sf.undo_char_point as int));
        lemma_undo_pop(s1, sf);
        assert(record_ok(r));
        assert(same_recs(s1, sf, s1.redo_point as int, STB_TEXTEDIT_UNDOSTATECOUNT as int));
        lemma_redo_push(s1, sf, r);
        assert(entry_of(r, sf.undo_char@) =~= undo_inverse(e, t0, keep));
        assert(str@ =~= apply_entry(t0, e, str.capacity as int));
    }
}

/// Applies the next redo record to the text, leaving the cursor after what
/// it inserts with no selection, and turns it into an undo record, which
/// keeps the characters the redo deletes when they fit beside the redo
/// characters (else it keeps nothing and restores nothing). Does
/// nothing when there is no record or it does not lie inside the text.
pub fn stb_text_redo(str: &mut TextBuffer, state: &mut STB_TexteditState)
    requires
        old(str).wf(),
        old(state).wf(),
    ensures
        final(str).wf(),
        final(state).wf(),
        same_metrics(*old(str), *final(str)),
        same_settings(*old(state), *final(state)),
        final(state).has_preferred_x == old(state).has_preferred_x,
        final(state).preferred_x == old(state).preferred_x,
        !can_redo(old(state).undostate, old(str)@) ==> final(str)@ == old(str)@ && *final(state)
            == *old(state),
        can_redo(old(state).undostate, old(str)@) ==> {
            let u = old(state).undostate;
            let e = u.redo_log()[0];
            let room = u.undo_char_point + e.delete_length <= u.redo_char_point;
            &&& final(str)@ == apply_entry(old(str)@, e, old(str).capacity as int)
            &&& final(state).cursor == e.location + e.insert_length
            &&& final(state).select_start == e.location + e.insert_length
            &&& final(state).select_end == e.location + e.insert_length
            &&& final(state).undostate.undo_log() == u.undo_log().push(
                redo_inverse(e, old(str)@, room),
            )
            &&& final(state).undostate.redo_log() == u.redo_log().drop_first()
        },
{
    if state.undostate.redo_point == STB_TEXTEDIT_UNDOSTATECOUNT {
        return;
    }
    let ghost s0 = state.undostate;
    let ghost st0 = *state;
    let ghost t0 = str@;
    proof {
        lemma_storage_in_bounds(s0);
        lemma_log_totals(s0);
        assert(record_ok(s0.undo_rec@[s0.redo_point as int]));
    }
    let r = state.undostate.undo_rec[state.undostate.redo_point as usize];
    let ghost e = s0.redo_log()[0];
    assert(e == entry_of(r, s0.undo_char@));
    let n = STB_TEXTEDIT_STRINGLEN(str);
    if r.location > n - r.delete_length {
        return;
    }
    let payload = record_text(&state.undostate, r);
    let ghost room = s0.undo_char_point + r.delete_length <= s0.redo_char_point;
    let mut u = StbUndoRecord {
        location: r.location,
        insert_length: r.delete_length,
        delete_length: r.insert_length,
        char_storage: -1,
    };
    if r.delete_length != 0 {
        if state.undostate.undo_char_point + u.insert_length > state.undostate.redo_char_point {
            // no room to keep the deleted characters: the undo will lose them
            u.insert_length = 0;
            u.delete_length = 0;
        } else {
            let start = state.undostate.undo_char_point;
            u.char_storage = start;
            state.undostate.undo_char_point = state.undostate.undo_char_point + u.insert_length;
            let mut i: i32 = 0;
            while i < u.insert_length
                invariant
                    0 <= i <= u.insert_length,
                    u.insert_length == r.delete_length,
                    0 <= start,
                    start == s0.undo_char_point,
                    start + u.insert_length <= s0.redo_char_point,
                    s0.redo_char_point <= STB_TEXTEDIT_UNDOCHARCOUNT,
                    u.location == r.location,
                    r.location + r.delete_length <= str@.len(),
                    0 <= r.location,
                    str.wf(),
                    str@ == t0,
                    same_but_log(st0, *state),
                    state.undostate.undo_rec == s0.undo_rec,
                    state.undostate.undo_point == s0.undo_point,
                    state.undostate.redo_point == s0.redo_point,
                    state.undostate.undo_char_point == start + u.insert_length,
                    state.undostate.redo_char_point == s0.redo_char_point,
                    state.undostate.undo_char@.len() == STB_TEXTEDIT_UNDOCHARCOUNT,
                    s0.undo_char@.len() == STB_TEXTEDIT_UNDOCHARCOUNT,
                    forall|k: int|
                        0 <= k < STB_TEXTEDIT_UNDOCHARCOUNT && !(start <= k < start + i)
                            ==> #[trigger] state.undostate.undo_char@[k] == s0.undo_char@[k],
                    forall|t: int|
                        0 <= t < i ==> #[trigger] state.undostate.undo_char@[start + t] == t0[r.location
                            + t],
                decreases u.insert_length - i,
            {
                let c = STB_TEXTEDIT_GETCHAR(str, u.location + i);
                state.undostate.undo_char.set((start + i) as usize, c);
                i = i + 1;
            }
            assert(state.undostate.undo_char@.subrange(start as int, start + u.insert_length)
                =~= t0.subrange(r.location as int, r.location + r.delete_length)) by {
                assert forall|t: int| 0 <= t < u.insert_length implies #[trigger] state.undostate.undo_char@.subrange(
                    start as int,
                    start + u.insert_length,
                )[t] == t0.subrange(r.location as int, r.location + r.delete_length)[t] by {
                    assert(state.undostate.undo_char@[start + t] == t0[r.location + t]);
                }
            }
        }
        STB_TEXTEDIT_DELETECHARS(str, r.location, r.delete_length);
    }
    let slot = state.undostate.undo_point;
    state.undostate.undo_rec.set(slot as usize, u);
    if r.insert_length != 0 {
        STB_TEXTEDIT_INSERTCHARS(str, r.location, payload.as_slice());
        state.undostate.redo_char_point = state.undostate.redo_char_point + r.insert_length;
    }
    state.cursor = r.location + r.insert_length;
    state.select_start = state.cursor;
    state.select_end = state.cursor;
    state.undostate.undo_point = state.undostate.undo_point + 1;
    state.undostate.redo_point = state.undostate.redo_point + 1;
    proof {
        let sf = state.undostate;
        assert(sf.undo_rec@[slot as int] == u);
        assert(record_ok(u));
        assert(same_recs(s0, sf, 0, s0.undo_point as int));
        assert(same_chars(s0, sf, 0, s0.undo_char_point as int));
        lemma_undo_push(s0, sf, u);
        assert(same_recs(s0, sf, sf.redo_point as int, STB_TEXTEDIT_UNDOSTATECOUNT as int));
        assert(same_chars(s0, sf, sf.redo_char_point as int, STB_TEXTEDIT_UNDOCHARCOUNT as int));
        lemma_redo_pop(s0, sf);
        assert(entry_of(u, sf.undo_char@) =~= redo_inverse(e, t0, room));
        assert(str@ =~= apply_entry(t0, e, str.capacity as int));
    }
}

/// Undoing a typed insertion of `typed` at `at` restores the text and the
/// cursor from before it; redoing it then restores the text and the cursor
/// after it. This holds when the undo could keep the inserted characters
/// for the redo (`undo_keeps`).
pub proof fn lemma_undo_redo_round_trip(
    before: Seq<i32>,
    at: int,
    typed: Seq<i32>,
    capacity: int,
    undo_char_point: int,
)
    requires
        0 <= at <= before.len(),
        before.len() + typed.len() <= capacity,
        undo_keeps(
            UndoEntry { location: at, insert_length: 0, delete_length: typed.len() as int, text: Seq::empty() },
            undo_char_point,
        ),
    ensures
        ({
            let after = splice(before, at, 0, typed);
            let e = UndoEntry {
                location: at,
                insert_length: 0,
                delete_length: typed.len() as int,
                text: Seq::empty(),
            };
            let r = undo_inverse(e, after, true);
            &&& entry_fits(e, after)
            &&& apply_entry(after, e, capacity) == before
            &&& e.location + e.insert_length == at
            &&& entry_fits(r, before)
            &&& apply_entry(before, r, capacity) == after
            &&& r.location + r.insert_length == at + typed.len()
        }),
{
    let after = splice(before, at, 0, typed);
    let e = UndoEntry { location: at, insert_length: 0, delete_length: typed.len() as int, text: Seq::empty() };
    assert(after.subrange(at, at + typed.len()) =~= typed);
    assert(apply_entry(after, e, capacity) =~= before);
    let r = undo_inverse(e, after, true);
    let d = splice(before, at, 0, Seq::empty());
    assert(d =~= before);
    assert(apply_entry(before, r, capacity) =~= after);
}

} // verus!
