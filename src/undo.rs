//! The bounded undo/redo log: records grow up from the bottom of one fixed
//! array and redo records down from its top; their characters likewise share
//! one fixed character array from opposite ends.
use vstd::prelude::*;
use crate::text::MAX_TEXT_LEN;

verus! {

/// Number of undo and redo records that fit in the log together.
pub const STB_TEXTEDIT_UNDOSTATECOUNT: i16 = 99;

/// Number of characters that undo and redo records can hold together.
pub const STB_TEXTEDIT_UNDOCHARCOUNT: i32 = 999;

/// One operation of the log. `insert_length` and `delete_length` say what
/// applying the record does: delete `delete_length` characters at
/// `location`, then insert the `insert_length` characters kept at
/// `char_storage` (or -1 when it keeps none).
#[derive(Debug, Clone, Copy, PartialEq, Eq)]
pub struct StbUndoRecord {
    pub location: i32,
    pub insert_length: i32,
    pub delete_length: i32,
    pub char_storage: i32,
}

/// The log itself. Undo records occupy `undo_rec[0..undo_point]` and their
/// characters `undo_char[0..undo_char_point]`; redo records occupy
/// `undo_rec[redo_point..]` and their characters `undo_char[redo_char_point..]`.
#[derive(Debug, Clone)]
pub struct StbUndoState {
    pub undo_rec: Vec<StbUndoRecord>,
    pub undo_char: Vec<i32>,
    pub undo_point: i16,
    pub redo_point: i16,
    pub undo_char_point: i32,
    pub redo_char_point: i32,
}

/// What a record means, with the characters it keeps.
pub struct UndoEntry {
    pub location: int,
    pub insert_length: int,
    pub delete_length: int,
    pub text: Seq<i32>,
}

/// Characters that a record keeps in the character array.
pub open spec fn stored(r: StbUndoRecord) -> int {
    if r.char_storage >= 0 {
        r.insert_length as int
    } else {
        0
    }
}

/// Characters kept by the first `k` records.
pub open spec fn undo_used(recs: Seq<StbUndoRecord>, k: int) -> int
    decreases k,
{
    if k <= 0 {
        0
    } else {
        undo_used(recs, k - 1) + stored(recs[k - 1])
    }
}

/// Characters kept by the records from `j` to the top of the array.
pub open spec fn redo_used(recs: Seq<StbUndoRecord>, j: int) -> int
    decreases STB_TEXTEDIT_UNDOSTATECOUNT - j,
{
    if j >= STB_TEXTEDIT_UNDOSTATECOUNT || j < 0 {
        0
    } else {
        stored(recs[j]) + redo_used(recs, j + 1)
    }
}

/// Field ranges of an active record.
pub open spec fn record_ok(r: StbUndoRecord) -> bool {
    &&& 0 <= r.location <= MAX_TEXT_LEN
    &&& 0 <= r.delete_length <= MAX_TEXT_LEN
    &&& 0 <= r.insert_length <= STB_TEXTEDIT_UNDOCHARCOUNT
    &&& -1 <= r.char_storage <= STB_TEXTEDIT_UNDOCHARCOUNT
    &&& r.char_storage < 0 ==> r.insert_length == 0
}

pub open spec fn entry_of(r: StbUndoRecord, chars: Seq<i32>) -> UndoEntry {
    UndoEntry {
        location: r.location as int,
        insert_length: r.insert_length as int,
        delete_length: r.delete_length as int,
        text: if r.char_storage >= 0 {
            chars.subrange(r.char_storage as int, r.char_storage + r.insert_length)
        } else {
            Seq::empty()
        },
    }
}

/// Characters kept by the entries of a log.
pub open spec fn text_total(log: Seq<UndoEntry>) -> int
    decreases log.len(),
{
    if log.len() == 0 {
        0
    } else {
        text_total(log.drop_last()) + log.last().text.len()
    }
}

/// Drops the oldest entries until `n` more characters fit.
pub open spec fn evict_until_fits(log: Seq<UndoEntry>, n: int) -> Seq<UndoEntry>
    decreases log.len(),
{
    if log.len() > 0 && text_total(log) + n > STB_TEXTEDIT_UNDOCHARCOUNT {
        evict_until_fits(log.drop_first(), n)
    } else {
        log
    }
}

/// The undo log as it stands before a new entry keeping `n` characters is
/// added: one record freed when all are in use, then room made for the
/// characters.
pub open spec fn make_room(log: Seq<UndoEntry>, n: int) -> Seq<UndoEntry> {
    evict_until_fits(
        if log.len() >= STB_TEXTEDIT_UNDOSTATECOUNT {
            log.drop_first()
        } else {
            log
        },
        n,
    )
}

/// The undo log after recording `e`: an entry whose characters can never fit
/// empties the log instead.
pub open spec fn push_undo(log: Seq<UndoEntry>, e: UndoEntry) -> Seq<UndoEntry> {
    if e.insert_length > STB_TEXTEDIT_UNDOCHARCOUNT {
        Seq::empty()
    } else {
        make_room(log, e.insert_length).push(e)
    }
}

/// Drops the oldest redo entries (at the end) until the redo characters fit
/// in `room`.
pub open spec fn trim_redo(log: Seq<UndoEntry>, room: int) -> Seq<UndoEntry>
    decreases log.len(),
{
    if log.len() > 0 && text_total(log) > room {
        trim_redo(log.drop_last(), room)
    } else {
        log
    }
}

impl StbUndoState {
    /// The undo records and their characters are laid out as described.
    pub open spec fn undo_ok(&self) -> bool {
        let recs = self.undo_rec@;
        &&& 0 <= self.undo_point <= STB_TEXTEDIT_UNDOSTATECOUNT
        &&& self.undo_char_point == undo_used(recs, self.undo_point as int)
        &&& forall|i: int|
            0 <= i < self.undo_point ==> #[trigger] record_ok(recs[i]) && (recs[i].char_storage
                >= 0 ==> recs[i].char_storage == undo_used(recs, i))
    }

    /// The redo records and their characters are laid out as described.
    pub open spec fn redo_ok(&self) -> bool {
        let recs = self.undo_rec@;
        &&& 0 <= self.redo_point <= STB_TEXTEDIT_UNDOSTATECOUNT
        &&& self.redo_char_point == STB_TEXTEDIT_UNDOCHARCOUNT - redo_used(
            recs,
            self.redo_point as int,
        )
        &&& forall|j: int|
            self.redo_point <= j < STB_TEXTEDIT_UNDOSTATECOUNT ==> #[trigger] record_ok(recs[j])
                && (recs[j].char_storage >= 0 ==> recs[j].char_storage
                == STB_TEXTEDIT_UNDOCHARCOUNT - redo_used(recs, j))
    }

    pub open spec fn wf(&self) -> bool {
        &&& self.undo_rec.len() == STB_TEXTEDIT_UNDOSTATECOUNT
        &&& self.undo_char.len() == STB_TEXTEDIT_UNDOCHARCOUNT
        &&& self.undo_point <= self.redo_point
        &&& self.undo_char_point <= self.redo_char_point
        &&& self.undo_ok()
        &&& self.redo_ok()
    }

    /// Undo entries, oldest first.
    pub open spec fn undo_log(&self) -> Seq<UndoEntry> {
        Seq::new(
            self.undo_point as nat,
            |k: int| entry_of(self.undo_rec@[k], self.undo_char@),
        )
    }

    /// Redo entries, the next one to redo first.
    pub open spec fn redo_log(&self) -> Seq<UndoEntry> {
        Seq::new(
            (STB_TEXTEDIT_UNDOSTATECOUNT - self.redo_point) as nat,
            |k: int| entry_of(self.undo_rec@[self.redo_point + k], self.undo_char@),
        )
    }
}

pub proof fn lemma_undo_used_mono(recs: Seq<StbUndoRecord>, a: int, b: int)
    requires
        0 <= a <= b <= recs.len(),
        forall|i: int| 0 <= i < b ==> #[trigger] record_ok(recs[i]),
    ensures
        0 <= undo_used(recs, a) <= undo_used(recs, b),
    decreases b,
{
    if b > 0 {
        assert(record_ok(recs[b - 1]));
        if a < b {
            lemma_undo_used_mono(recs, a, b - 1);
        } else {
            lemma_undo_used_mono(recs, a - 1, b - 1);
        }
    }
}

pub proof fn lemma_redo_used_mono(recs: Seq<StbUndoRecord>, a: int, b: int)
    requires
        0 <= a <= b <= STB_TEXTEDIT_UNDOSTATECOUNT,
        recs.len() == STB_TEXTEDIT_UNDOSTATECOUNT,
        forall|i: int| a <= i < STB_TEXTEDIT_UNDOSTATECOUNT ==> #[trigger] record_ok(recs[i]),
    ensures
        0 <= redo_used(recs, b) <= redo_used(recs, a),
    decreases STB_TEXTEDIT_UNDOSTATECOUNT - a,
{
    if a < STB_TEXTEDIT_UNDOSTATECOUNT {
        assert(record_ok(recs[a]));
        if a < b {
            lemma_redo_used_mono(recs, a + 1, b);
        } else {
            lemma_redo_used_mono(recs, a + 1, a + 1);
        }
    }
}

/// Every record's characters lie inside its own half of the character
/// array: undo characters below `undo_char_point`, redo characters from
/// `redo_char_point` to the end, and the two halves do not meet.
pub proof fn lemma_storage_in_bounds(u: StbUndoState)
    requires
        u.wf(),
    ensures
        u.undo_point <= u.redo_point,
        0 <= u.undo_char_point <= u.redo_char_point <= STB_TEXTEDIT_UNDOCHARCOUNT,
        forall|i: int|
            0 <= i < u.undo_point && (#[trigger] u.undo_rec@[i]).char_storage >= 0 ==> 0
                <= u.undo_rec@[i].char_storage && u.undo_rec@[i].char_storage
                + u.undo_rec@[i].insert_length <= u.undo_char_point,
        forall|j: int|
            u.redo_point <= j < STB_TEXTEDIT_UNDOSTATECOUNT && (
            #[trigger] u.undo_rec@[j]).char_storage >= 0 ==> u.redo_char_point
                <= u.undo_rec@[j].char_storage && u.undo_rec@[j].char_storage
                + u.undo_rec@[j].insert_length <= STB_TEXTEDIT_UNDOCHARCOUNT,
{
    let recs = u.undo_rec@;
    assert forall|i: int| 0 <= i < u.undo_point implies #[trigger] record_ok(recs[i]) by {}
    lemma_undo_used_mono(recs, 0, u.undo_point as int);
    assert forall|j: int|
        u.redo_point <= j < STB_TEXTEDIT_UNDOSTATECOUNT implies #[trigger] record_ok(recs[j]) by {}
    lemma_redo_used_mono(recs, u.redo_point as int, u.redo_point as int);
    assert forall|i: int|
        0 <= i < u.undo_point && (#[trigger] u.undo_rec@[i]).char_storage >= 0 implies 0
            <= u.undo_rec@[i].char_storage && u.undo_rec@[i].char_storage
            + u.undo_rec@[i].insert_length <= u.undo_char_point by {
        assert(record_ok(recs[i]));
        lemma_undo_used_mono(recs, i, i + 1);
        lemma_undo_used_mono(recs, i + 1, u.undo_point as int);
    }
    assert forall|j: int|
        u.redo_point <= j < STB_TEXTEDIT_UNDOSTATECOUNT && (
        #[trigger] u.undo_rec@[j]).char_storage >= 0 implies u.redo_char_point
            <= u.undo_rec@[j].char_storage && u.undo_rec@[j].char_storage
            + u.undo_rec@[j].insert_length <= STB_TEXTEDIT_UNDOCHARCOUNT by {
        assert(record_ok(recs[j]));
        lemma_redo_used_mono(recs, u.redo_point as int, j);
        lemma_redo_used_mono(recs, j + 1, j + 1);
    }
}

pub proof fn lemma_undo_used_shift(a: Seq<StbUndoRecord>, b: Seq<StbUndoRecord>, k: int)
    requires
        0 <= k,
        k + 1 <= b.len(),
        k <= a.len(),
        forall|j: int| 0 <= j < k ==> #[trigger] stored(a[j]) == stored(b[j + 1]),
    ensures
        undo_used(a, k) == undo_used(b, k + 1) - stored(b[0]),
    decreases k,
{
    assert(undo_used(b, k + 1) == undo_used(b, k) + stored(b[k]));
    if k > 0 {
        lemma_undo_used_shift(a, b, k - 1);
        assert(stored(a[k - 1]) == stored(b[k]));
    } else {
        assert(undo_used(b, 0) == 0);
    }
}

pub proof fn lemma_undo_used_same(a: Seq<StbUndoRecord>, b: Seq<StbUndoRecord>, k: int)
    requires
        0 <= k <= a.len(),
        k <= b.len(),
        forall|j: int| 0 <= j < k ==> #[trigger] stored(a[j]) == stored(b[j]),
    ensures
        undo_used(a, k) == undo_used(b, k),
    decreases k,
{
    if k > 0 {
        lemma_undo_used_same(a, b, k - 1);
        assert(stored(a[k - 1]) == stored(b[k - 1]));
    }
}

pub proof fn lemma_redo_used_shift(a: Seq<StbUndoRecord>, b: Seq<StbUndoRecord>, j: int)
    requires
        0 <= j < STB_TEXTEDIT_UNDOSTATECOUNT,
        a.len() == STB_TEXTEDIT_UNDOSTATECOUNT,
        b.len() == STB_TEXTEDIT_UNDOSTATECOUNT,
        forall|t: int|
            j <= t < STB_TEXTEDIT_UNDOSTATECOUNT - 1 ==> #[trigger] stored(b[t]) == stored(
                a[t + 1],
            ),
    ensures
        redo_used(a, j + 1) == redo_used(b, j) - stored(b[STB_TEXTEDIT_UNDOSTATECOUNT - 1]),
    decreases STB_TEXTEDIT_UNDOSTATECOUNT - j,
{
    assert(redo_used(b, j) == stored(b[j]) + redo_used(b, j + 1));
    if j < STB_TEXTEDIT_UNDOSTATECOUNT - 1 {
        lemma_redo_used_shift(a, b, j + 1);
        assert(stored(b[j]) == stored(a[j + 1]));
        assert(redo_used(a, j + 1) == stored(a[j + 1]) + redo_used(a, j + 2));
    } else {
        assert(redo_used(a, j + 1) == 0);
        assert(redo_used(b, j + 1) == 0);
    }
}

pub proof fn lemma_redo_used_same(a: Seq<StbUndoRecord>, b: Seq<StbUndoRecord>, j: int)
    requires
        0 <= j <= STB_TEXTEDIT_UNDOSTATECOUNT,
        a.len() == STB_TEXTEDIT_UNDOSTATECOUNT,
        b.len() == STB_TEXTEDIT_UNDOSTATECOUNT,
        forall|t: int| j <= t < STB_TEXTEDIT_UNDOSTATECOUNT ==> #[trigger] stored(a[t]) == stored(b[t]),
    ensures
        redo_used(a, j) == redo_used(b, j),
    decreases STB_TEXTEDIT_UNDOSTATECOUNT - j,
{
    if j < STB_TEXTEDIT_UNDOSTATECOUNT {
        lemma_redo_used_same(a, b, j + 1);
        assert(stored(a[j]) == stored(b[j]));
    }
}

/// The characters kept by the undo log are those below `undo_char_point`,
/// and those of the redo log are those from `redo_char_point` on.
pub proof fn lemma_log_totals(u: StbUndoState)
    requires
        u.wf(),
    ensures
        text_total(u.undo_log()) == u.undo_char_point,
        text_total(u.redo_log()) == STB_TEXTEDIT_UNDOCHARCOUNT - u.redo_char_point,
        forall|k: int| 0 <= k < u.undo_log().len() ==> (#[trigger] u.undo_log()[k]).text.len()
            == u.undo_log()[k].insert_length,
        forall|k: int| 0 <= k < u.redo_log().len() ==> (#[trigger] u.redo_log()[k]).text.len()
            == u.redo_log()[k].insert_length,
{
    lemma_storage_in_bounds(u);
    let recs = u.undo_rec@;
    let ul = u.undo_log();
    let rl = u.redo_log();
    assert forall|k: int| 0 <= k < ul.len() implies (#[trigger] ul[k]).text.len()
        == ul[k].insert_length && ul[k].text.len() == stored(u.undo_rec@[k]) by {
        assert(record_ok(recs[k]));
        assert(recs[k] == u.undo_rec@[k]);
    }
    assert forall|k: int| 0 <= k < rl.len() implies (#[trigger] rl[k]).text.len()
        == rl[k].insert_length && rl[k].text.len() == stored(u.undo_rec@[u.redo_point + k]) by {
        let j = u.redo_point + k;
        assert(record_ok(recs[j]));
        assert(recs[j] == u.undo_rec@[j]);
    }
    lemma_undo_total_prefix(u, ul.len() as int);
    assert(ul.take(ul.len() as int) =~= ul);
    lemma_redo_total_prefix(u, rl.len() as int);
    assert(rl.take(rl.len() as int) =~= rl);
}

proof fn lemma_undo_total_prefix(u: StbUndoState, k: int)
    requires
        u.wf(),
        0 <= k <= u.undo_point,
        forall|t: int|
            0 <= t < u.undo_log().len() ==> (#[trigger] u.undo_log()[t]).text.len() == stored(
                u.undo_rec@[t],
            ),
    ensures
        text_total(u.undo_log().take(k)) == undo_used(u.undo_rec@, k),
    decreases k,
{
    let ul = u.undo_log();
    if k > 0 {
        lemma_undo_total_prefix(u, k - 1);
        assert(ul.take(k).drop_last() =~= ul.take(k - 1));
        assert(ul.take(k).last() == ul[k - 1]);
    } else {
        assert(ul.take(0).len() == 0);
    }
}

proof fn lemma_redo_total_prefix(u: StbUndoState, c: int)
    requires
        u.wf(),
        0 <= c <= u.redo_log().len(),
        forall|t: int|
            0 <= t < u.redo_log().len() ==> (#[trigger] u.redo_log()[t]).text.len() == stored(
                u.undo_rec@[u.redo_point + t],
            ),
    ensures
        text_total(u.redo_log().take(c)) == redo_used(u.undo_rec@, u.redo_point as int)
            - redo_used(u.undo_rec@, u.redo_point + c),
    decreases c,
{
    let rl = u.redo_log();
    if c > 0 {
        lemma_redo_total_prefix(u, c - 1);
        assert(rl.take(c).drop_last() =~= rl.take(c - 1));
        assert(rl.take(c).last() == rl[c - 1]);
        assert(redo_used(u.undo_rec@, u.redo_point + c - 1) == stored(u.undo_rec@[u.redo_point + c - 1])
            + redo_used(u.undo_rec@, u.redo_point + c));
    } else {
        assert(rl.take(0).len() == 0);
    }
}

/// Copies `count` elements from `src_idx` to `dest_idx`; the two ranges may
/// overlap.
fn stb_textedit_memmove<T: Copy>(slice: &mut Vec<T>, dest_idx: usize, src_idx: usize, count: usize)
    requires
        dest_idx + count <= old(slice).len(),
        src_idx + count <= old(slice).len(),
    ensures
        final(slice)@.len() == old(slice)@.len(),
        forall|k: int|
            0 <= k < old(slice)@.len() ==> #[trigger] final(slice)@[k] == if dest_idx <= k
                < dest_idx + count {
                old(slice)@[k - dest_idx + src_idx]
            } else {
                old(slice)@[k]
            },
{
    if dest_idx == src_idx || count == 0 {
        return;
    }
    let ghost s = slice@;
    let len = slice.len();
    if dest_idx < src_idx {
        let mut i: usize = 0;
        while i < count
            invariant
                dest_idx < src_idx,
                dest_idx + count <= len,
                src_idx + count <= len,
                len == s.len(),
                0 <= i <= count,
                slice@.len() == s.len(),
                forall|k: int|
                    0 <= k < s.len() ==> #[trigger] slice@[k] == if dest_idx <= k < dest_idx + i {
                        s[k - dest_idx + src_idx]
                    } else {
                        s[k]
                    },
            decreases count - i,
        {
            let v = slice[src_idx + i];
            slice.set(dest_idx + i, v);
            i = i + 1;
        }
    } else {
        let mut i: usize = count;
        while i > 0
            invariant
                dest_idx > src_idx,
                dest_idx + count <= len,
                src_idx + count <= len,
                len == s.len(),
                0 <= i <= count,
                slice@.len() == s.len(),
                forall|k: int|
                    0 <= k < s.len() ==> #[trigger] slice@[k] == if dest_idx + i <= k < dest_idx
                        + count {
                        s[k - dest_idx + src_idx]
                    } else {
                        s[k]
                    },
            decreases i,
        {
            i = i - 1;
            let v = slice[src_idx + i];
            slice.set(dest_idx + i, v);
        }
    }
}

impl StbUndoState {
    /// An empty log.
    pub fn new() -> (r: StbUndoState)
        ensures
            r.wf(),
            r.undo_point == 0,
            r.redo_point == STB_TEXTEDIT_UNDOSTATECOUNT,
            r.undo_char_point == 0,
            r.redo_char_point == STB_TEXTEDIT_UNDOCHARCOUNT,
            r.undo_log() == Seq::<UndoEntry>::empty(),
            r.redo_log() == Seq::<UndoEntry>::empty(),
    {
        let mut recs: Vec<StbUndoRecord> = Vec::new();
        let mut i: i16 = 0;
        while i < STB_TEXTEDIT_UNDOSTATECOUNT
            invariant
                0 <= i <= STB_TEXTEDIT_UNDOSTATECOUNT,
                recs.len() == i,
            decreases STB_TEXTEDIT_UNDOSTATECOUNT - i,
        {
            recs.push(StbUndoRecord { location: 0, insert_length: 0, delete_length: 0, char_storage: -1 });
            i = i + 1;
        }
        let mut chars: Vec<i32> = Vec::new();
        let mut j: i32 = 0;
        while j < STB_TEXTEDIT_UNDOCHARCOUNT
            invariant
                0 <= j <= STB_TEXTEDIT_UNDOCHARCOUNT,
                chars.len() == j,
            decreases STB_TEXTEDIT_UNDOCHARCOUNT - j,
        {
            chars.push(0);
            j = j + 1;
        }
        let r = StbUndoState {
            undo_rec: recs,
            undo_char: chars,
            undo_point: 0,
            redo_point: STB_TEXTEDIT_UNDOSTATECOUNT,
            undo_char_point: 0,
            redo_char_point: STB_TEXTEDIT_UNDOCHARCOUNT,
        };
        assert(r.undo_log() =~= Seq::<UndoEntry>::empty());
        assert(r.redo_log() =~= Seq::<UndoEntry>::empty());
        r
    }
}

/// Forgets every redo record.
pub fn stb_textedit_flush_redo(state: &mut StbUndoState)
    requires
        old(state).wf(),
    ensures
        final(state).wf(),
        final(state).undo_rec == old(state).undo_rec,
        final(state).undo_char == old(state).undo_char,
        final(state).undo_point == old(state).undo_point,
        final(state).undo_char_point == old(state).undo_char_point,
        final(state).redo_point == STB_TEXTEDIT_UNDOSTATECOUNT,
        final(state).redo_char_point == STB_TEXTEDIT_UNDOCHARCOUNT,
        final(state).undo_log() == old(state).undo_log(),
        final(state).redo_log() == Seq::<UndoEntry>::empty(),
{
    proof {
        lemma_storage_in_bounds(*state);
    }
    state.redo_point = STB_TEXTEDIT_UNDOSTATECOUNT;
    state.redo_char_point = STB_TEXTEDIT_UNDOCHARCOUNT;
    assert(state.redo_log() =~= Seq::<UndoEntry>::empty());
    proof {
        lemma_undo_used_mono(state.undo_rec@, 0, state.undo_point as int);
    }
}

/// `r` with its character offset moved by `d` when it keeps characters.
pub open spec fn moved(r: StbUndoRecord, d: int) -> StbUndoRecord {
    if r.char_storage >= 0 {
        StbUndoRecord { char_storage: (r.char_storage + d) as i32, ..r }
    } else {
        r
    }
}

/// Discards the oldest undo record, sliding the remaining undo records and
/// their characters down to the start of the arrays.
pub fn stb_textedit_discard_undo(state: &mut StbUndoState)
    requires
        old(state).wf(),
    ensures
        final(state).wf(),
        old(state).undo_point == 0 ==> *final(state) == *old(state),
        old(state).undo_point > 0 ==> {
            &&& final(state).undo_point == old(state).undo_point - 1
            &&& final(state).undo_log() == old(state).undo_log().drop_first()
            &&& final(state).undo_char_point == old(state).undo_char_point - old(
                state,
            ).undo_log()[0].insert_length
        },
        final(state).redo_point == old(state).redo_point,
        final(state).redo_char_point == old(state).redo_char_point,
        final(state).redo_log() == old(state).redo_log(),
{
    if state.undo_point > 0 {
        let ghost o = *state;
        proof {
            lemma_storage_in_bounds(o);
            lemma_log_totals(o);
            assert(record_ok(o.undo_rec@[0]));
        }
        let first = state.undo_rec[0];
        let mut n: i32 = 0;
        if first.char_storage >= 0 {
            n = first.insert_length;
            state.undo_char_point = state.undo_char_point - n;
            stb_textedit_memmove(&mut state.undo_char, 0, n as usize, state.undo_char_point as usize);
        }
        let ghost c1 = state.undo_char@;
        assert forall|k: int| 0 <= k < STB_TEXTEDIT_UNDOCHARCOUNT implies #[trigger] c1[k] == if k
            < o.undo_char_point - n {
            o.undo_char@[k + n]
        } else {
            o.undo_char@[k]
        } by {}
        state.undo_point = state.undo_point - 1;
        stb_textedit_memmove(&mut state.undo_rec, 0, 1, state.undo_point as usize);
        let ghost mid = state.undo_rec@;
        let mut i: i16 = 0;
        while i < state.undo_point
            invariant
                0 <= i <= state.undo_point,
                state.undo_point == o.undo_point - 1,
                state.undo_rec@.len() == mid.len(),
                mid.len() == STB_TEXTEDIT_UNDOSTATECOUNT,
                n == stored(o.undo_rec@[0]),
                0 <= n,
                o.wf(),
                forall|k: int|
                    0 <= k < mid.len() ==> #[trigger] state.undo_rec@[k] == if k < i {
                        moved(mid[k], -n)
                    } else {
                        mid[k]
                    },
                state.undo_char@ == c1,
                c1.len() == STB_TEXTEDIT_UNDOCHARCOUNT,
                state.undo_point < STB_TEXTEDIT_UNDOSTATECOUNT,
                forall|k: int|
                    0 <= k < mid.len() ==> #[trigger] mid[k] == if k < state.undo_point {
                        o.undo_rec@[k + 1]
                    } else {
                        o.undo_rec@[k]
                    },
                state.undo_char_point == o.undo_char_point - n,
                state.redo_point == o.redo_point,
                state.redo_char_point == o.redo_char_point,
            decreases state.undo_point - i,
        {
            let mut r = state.undo_rec[i as usize];
            if r.char_storage >= 0 {
                proof {
                    assert(mid[i as int] == o.undo_rec@[i + 1]);
                    assert(record_ok(o.undo_rec@[i + 1]));
                    lemma_undo_used_mono(o.undo_rec@, 1, i + 1);
                    assert(undo_used(o.undo_rec@, 1) == undo_used(o.undo_rec@, 0) + n);
                }
                r.char_storage = r.char_storage - n;
            }
            state.undo_rec.set(i as usize, r);
            i = i + 1;
        }
        proof {
            let a = state.undo_rec@;
            let b = o.undo_rec@;
            let up = state.undo_point as int;
            assert forall|k: int| 0 <= k < STB_TEXTEDIT_UNDOSTATECOUNT implies #[trigger] a[k] == if k
                < up {
                moved(b[k + 1], -n)
            } else {
                b[k]
            } by {
                assert(mid[k] == if k < up { b[k + 1] } else { b[k] });
            }
            assert forall|j: int| 0 <= j < up implies #[trigger] stored(a[j]) == stored(b[j + 1])
                && a[j] == moved(b[j + 1], -n) && (b[j + 1].char_storage >= 0 ==> b[j
                + 1].char_storage >= n) by {
                assert(record_ok(b[j + 1]));
                lemma_undo_used_mono(b, 1, j + 1);
                assert(undo_used(b, 1) == undo_used(b, 0) + n);
            }
            lemma_undo_used_shift(a, b, up);
            assert forall|j: int| 0 <= j < up implies #[trigger] record_ok(a[j]) && (
            a[j].char_storage >= 0 ==> a[j].char_storage == undo_used(a, j)) by {
                assert(stored(a[j]) == stored(b[j + 1]));
                assert(record_ok(b[j + 1]));
                lemma_undo_used_shift(a, b, j);
            }
            assert forall|t: int| o.redo_point <= t < STB_TEXTEDIT_UNDOSTATECOUNT implies #[trigger] stored(
                a[t],
            ) == stored(b[t]) && a[t] == b[t] by {}
            lemma_redo_used_same(a, b, o.redo_point as int);
            assert forall|t: int|
                o.redo_point <= t < STB_TEXTEDIT_UNDOSTATECOUNT implies #[trigger] record_ok(a[t])
                && (a[t].char_storage >= 0 ==> a[t].char_storage == STB_TEXTEDIT_UNDOCHARCOUNT
                - redo_used(a, t)) by {
                assert(a[t] == b[t]);
                assert(record_ok(b[t]));
                lemma_redo_used_same(a, b, t);
            }
            assert(state.wf());
            let ul = state.undo_log();
            let ol = o.undo_log();
            assert forall|j: int| 0 <= j < ul.len() implies #[trigger] ul[j] == ol.drop_first()[j] by {
                assert(stored(a[j]) == stored(b[j + 1]));
                assert(record_ok(b[j + 1]));
                assert(b[j + 1] == o.undo_rec@[j + 1]);
                lemma_undo_used_shift(a, b, j);
                lemma_undo_used_mono(a, j + 1, up);
                assert(undo_used(a, j + 1) == undo_used(a, j) + stored(a[j]));
                lemma_undo_used_mono(b, j + 2, o.undo_point as int);
                if b[j + 1].char_storage >= 0 {
                    assert(state.undo_char@.subrange(a[j].char_storage as int, a[j].char_storage + a[j].insert_length)
                        =~= o.undo_char@.subrange(b[j + 1].char_storage as int, b[j + 1].char_storage
                        + b[j + 1].insert_length));
                }
            }
            assert(ul =~= ol.drop_first());
            let rl = state.redo_log();
            assert forall|j: int| 0 <= j < rl.len() implies #[trigger] rl[j] == o.redo_log()[j] by {
                let t = o.redo_point + j;
                assert(record_ok(b[t]));
                lemma_redo_used_mono(b, o.redo_point as int, t);
                if b[t].char_storage >= 0 {
                    assert(state.undo_char@.subrange(b[t].char_storage as int, b[t].char_storage + b[t].insert_length)
                        =~= o.undo_char@.subrange(b[t].char_storage as int, b[t].char_storage
                        + b[t].insert_length));
                }
            }
            assert(rl =~= o.redo_log());
        }
    }
}

/// Discards the oldest redo record (the one at the top of the array),
/// sliding the remaining redo records and their characters up to the end of
/// the arrays.
pub fn stb_textedit_discard_redo(state: &mut StbUndoState)
    requires
        old(state).wf(),
    ensures
        final(state).wf(),
        old(state).redo_point == STB_TEXTEDIT_UNDOSTATECOUNT ==> *final(state) == *old(state),
        old(state).redo_point < STB_TEXTEDIT_UNDOSTATECOUNT ==> {
            &&& final(state).redo_point == old(state).redo_point + 1
            &&& final(state).redo_log() == old(state).redo_log().drop_last()
            &&& final(state).redo_char_point == old(state).redo_char_point + old(
                state,
            ).redo_log().last().insert_length
        },
        final(state).undo_point == old(state).undo_point,
        final(state).undo_char_point == old(state).undo_char_point,
        final(state).undo_log() == old(state).undo_log(),
{
    let k: i16 = STB_TEXTEDIT_UNDOSTATECOUNT - 1;
    if state.redo_point <= k {
        let ghost o = *state;
        proof {
            lemma_storage_in_bounds(o);
            lemma_log_totals(o);
            assert(record_ok(o.undo_rec@[k as int]));
            assert(o.redo_log().last() == entry_of(o.undo_rec@[k as int], o.undo_char@));
        }
        let last = state.undo_rec[k as usize];
        let mut n: i32 = 0;
        if last.char_storage >= 0 {
            n = last.insert_length;
            state.redo_char_point = state.redo_char_point + n;
            stb_textedit_memmove(
                &mut state.undo_char,
                state.redo_char_point as usize,
                (state.redo_char_point - n) as usize,
                (STB_TEXTEDIT_UNDOCHARCOUNT - state.redo_char_point) as usize,
            );
        }
        let ghost c1 = state.undo_char@;
        assert forall|t: int| 0 <= t < STB_TEXTEDIT_UNDOCHARCOUNT implies #[trigger] c1[t] == if o.redo_char_point
            + n <= t {
            o.undo_char@[t - n]
        } else {
            o.undo_char@[t]
        } by {}
        let mut i: i16 = state.redo_point;
        while i < k
            invariant
                o.redo_point <= i <= k,
                k == STB_TEXTEDIT_UNDOSTATECOUNT - 1,
                state.redo_point == o.redo_point,
                state.undo_rec@.len() == STB_TEXTEDIT_UNDOSTATECOUNT,
                n == stored(o.undo_rec@[k as int]),
                0 <= n <= STB_TEXTEDIT_UNDOCHARCOUNT,
                o.wf(),
                state.undo_char@ == c1,
                forall|t: int|
                    0 <= t < STB_TEXTEDIT_UNDOSTATECOUNT ==> #[trigger] state.undo_rec@[t] == if o.redo_point
                        <= t < i {
                        moved(o.undo_rec@[t], n as int)
                    } else {
                        o.undo_rec@[t]
                    },
                state.undo_char@.len() == STB_TEXTEDIT_UNDOCHARCOUNT,
                state.redo_char_point == o.redo_char_point + n,
                state.undo_point == o.undo_point,
                state.undo_char_point == o.undo_char_point,
            decreases k - i,
        {
            let mut r = state.undo_rec[i as usize];
            if r.char_storage >= 0 {
                proof {
                    assert(state.undo_rec@[i as int] == o.undo_rec@[i as int]);
                    assert(record_ok(o.undo_rec@[i as int]));
                }
                r.char_storage = r.char_storage + n;
            }
            state.undo_rec.set(i as usize, r);
            i = i + 1;
        }
        let move_count: i16 = STB_TEXTEDIT_UNDOSTATECOUNT - state.redo_point - 1;
        if move_count > 0 {
            stb_textedit_memmove(
                &mut state.undo_rec,
                (state.redo_point + 1) as usize,
                state.redo_point as usize,
                move_count as usize,
            );
        }
        state.redo_point = state.redo_point + 1;
        proof {
            let a = state.undo_rec@;
            let b = o.undo_rec@;
            let rp = o.redo_point as int;
            assert forall|t: int| rp <= t < STB_TEXTEDIT_UNDOSTATECOUNT - 1 implies #[trigger] stored(b[t]) == stored(
                a[t + 1],
            ) && a[t + 1] == moved(b[t], n as int) by {
                assert(record_ok(b[t]));
            }
            lemma_redo_used_shift(a, b, rp);
            assert forall|t: int|
                rp + 1 <= t < STB_TEXTEDIT_UNDOSTATECOUNT implies #[trigger] record_ok(a[t])
                && (a[t].char_storage >= 0 ==> a[t].char_storage == STB_TEXTEDIT_UNDOCHARCOUNT
                - redo_used(a, t)) by {
                assert(record_ok(b[t - 1]));
                assert(stored(b[t - 1]) == stored(a[t]));
                lemma_redo_used_shift(a, b, t - 1);
                lemma_redo_used_mono(b, t - 1, STB_TEXTEDIT_UNDOSTATECOUNT - 1);
                assert(redo_used(b, STB_TEXTEDIT_UNDOSTATECOUNT - 1) == n + redo_used(b, STB_TEXTEDIT_UNDOSTATECOUNT as int));
            }
            assert forall|j: int| 0 <= j < o.undo_point implies #[trigger] stored(a[j]) == stored(b[j])
                && a[j] == b[j] by {}
            lemma_undo_used_same(a, b, o.undo_point as int);
            assert forall|j: int| 0 <= j < o.undo_point implies #[trigger] record_ok(a[j]) && (
            a[j].char_storage >= 0 ==> a[j].char_storage == undo_used(a, j)) by {
                assert(record_ok(b[j]));
                lemma_undo_used_same(a, b, j);
            }
            assert(state.wf());
            let rl = state.redo_log();
            let ol = o.redo_log();
            assert forall|j: int| 0 <= j < rl.len() implies #[trigger] rl[j] == ol.drop_last()[j] by {
                let t = rp + j;
                assert(record_ok(b[t]));
                lemma_redo_used_mono(b, rp, t);
                lemma_redo_used_mono(b, t + 1, STB_TEXTEDIT_UNDOSTATECOUNT - 1);
                assert(redo_used(b, STB_TEXTEDIT_UNDOSTATECOUNT - 1) == n + redo_used(b, STB_TEXTEDIT_UNDOSTATECOUNT as int));
                if b[t].char_storage >= 0 {
                    assert(state.undo_char@.subrange(a[t + 1].char_storage as int, a[t + 1].char_storage
                        + a[t + 1].insert_length) =~= o.undo_char@.subrange(b[t].char_storage as int,
                        b[t].char_storage + b[t].insert_length));
                }
            }
            assert(rl =~= ol.drop_last());
            let ul = state.undo_log();
            assert forall|j: int| 0 <= j < ul.len() implies #[trigger] ul[j] == o.undo_log()[j] by {
                assert(record_ok(b[j]));
                lemma_undo_used_mono(b, j + 1, o.undo_point as int);
                if b[j].char_storage >= 0 {
                    assert(state.undo_char@.subrange(b[j].char_storage as int, b[j].char_storage
                        + b[j].insert_length) =~= o.undo_char@.subrange(b[j].char_storage as int,
                        b[j].char_storage + b[j].insert_length));
                }
            }
            assert(ul =~= o.undo_log());
        }
    }
}

/// The record standing for an entry whose fields are not yet set.
pub open spec fn blank_record() -> StbUndoRecord {
    StbUndoRecord { location: 0, insert_length: 0, delete_length: 0, char_storage: -1i32 }
}

impl StbUndoState {
    /// The most recent undo record.
    pub open spec fn top(&self) -> StbUndoRecord {
        self.undo_rec@[self.undo_point - 1]
    }
}

/// Makes room for a new undo record that will keep `numchars` characters and
/// claims it, blank. Discards every redo record, and the oldest undo records
/// as needed; when `numchars` could never fit, empties the log and claims
/// nothing.
pub fn stb_text_create_undo_record(state: &mut StbUndoState, numchars: i32) -> (r: Option<i16>)
    requires
        old(state).wf(),
        0 <= numchars,
    ensures
        final(state).wf(),
        final(state).redo_point == STB_TEXTEDIT_UNDOSTATECOUNT,
        final(state).redo_log() == Seq::<UndoEntry>::empty(),
        numchars > STB_TEXTEDIT_UNDOCHARCOUNT ==> r is None && final(state).undo_point == 0
            && final(state).undo_char_point == 0,
        numchars <= STB_TEXTEDIT_UNDOCHARCOUNT ==> {
            &&& r == Some((final(state).undo_point - 1) as i16)
            &&& final(state).undo_point > 0
            &&& final(state).undo_log().drop_last() == make_room(old(state).undo_log(), numchars as int)
            &&& final(state).top() == blank_record()
            &&& final(state).undo_char_point + numchars <= STB_TEXTEDIT_UNDOCHARCOUNT
        },
{
    stb_textedit_flush_redo(state);
    let ghost log0 = state.undo_log();
    if state.undo_point == STB_TEXTEDIT_UNDOSTATECOUNT {
        stb_textedit_discard_undo(state);
    }
    if numchars > STB_TEXTEDIT_UNDOCHARCOUNT {
        state.undo_point = 0;
        state.undo_char_point = 0;
        return None;
    }
    let ghost log1 = state.undo_log();
    assert(log1 == if log0.len() >= STB_TEXTEDIT_UNDOSTATECOUNT { log0.drop_first() } else { log0 });
    while state.undo_char_point + numchars > STB_TEXTEDIT_UNDOCHARCOUNT
        invariant
            state.wf(),
            0 <= numchars <= STB_TEXTEDIT_UNDOCHARCOUNT,
            state.undo_point < STB_TEXTEDIT_UNDOSTATECOUNT,
            state.redo_point == STB_TEXTEDIT_UNDOSTATECOUNT,
            state.redo_log() == Seq::<UndoEntry>::empty(),
            evict_until_fits(state.undo_log(), numchars as int) == evict_until_fits(
                log1,
                numchars as int,
            ),
        decreases state.undo_point,
    {
        proof {
            lemma_log_totals(*state);
            if state.undo_point == 0 {
                assert(undo_used(state.undo_rec@, 0) == 0);
            }
        }
        let ghost before = state.undo_log();
        stb_textedit_discard_undo(state);
        assert(state.undo_log() == before.drop_first());
    }
    proof {
        lemma_log_totals(*state);
    }
    assert(evict_until_fits(state.undo_log(), numchars as int) == state.undo_log());
    let tmp = state.undo_point;
    let ghost o = *state;
    state.undo_rec.set(tmp as usize, StbUndoRecord { location: 0, insert_length: 0, delete_length: 0, char_storage: -1 });
    state.undo_point = state.undo_point + 1;
    proof {
        let a = state.undo_rec@;
        let b = o.undo_rec@;
        assert forall|j: int| 0 <= j < tmp implies #[trigger] stored(a[j]) == stored(b[j]) && a[j] == b[j] by {}
        lemma_undo_used_same(a, b, tmp as int);
        assert forall|j: int| 0 <= j < state.undo_point implies #[trigger] record_ok(a[j]) && (
        a[j].char_storage >= 0 ==> a[j].char_storage == undo_used(a, j)) by {
            if j < tmp {
                assert(record_ok(b[j]));
                lemma_undo_used_same(a, b, j);
            }
        }
        assert(undo_used(a, tmp + 1) == undo_used(a, tmp as int) + stored(a[tmp as int]));
        assert(state.redo_log() =~= Seq::<UndoEntry>::empty());
        assert(state.undo_log().drop_last() =~= o.undo_log());
    }
    Some(tmp)
}

/// Records an operation at `pos` whose undoing deletes `delete_len`
/// characters and inserts `insert_len` ones. Returns the offset where the
/// caller is to store those `insert_len` characters, or None when there are
/// none or they could never fit (the log is then emptied).
pub fn stb_text_createundo(state: &mut StbUndoState, pos: i32, insert_len: i32, delete_len: i32) -> (r:
    Option<i32>)
    requires
        old(state).wf(),
        0 <= pos <= MAX_TEXT_LEN,
        0 <= insert_len <= MAX_TEXT_LEN,
        0 <= delete_len <= MAX_TEXT_LEN,
    ensures
        final(state).wf(),
        final(state).redo_point == STB_TEXTEDIT_UNDOSTATECOUNT,
        final(state).redo_log() == Seq::<UndoEntry>::empty(),
        insert_len > STB_TEXTEDIT_UNDOCHARCOUNT ==> r is None && final(state).undo_log()
            == Seq::<UndoEntry>::empty(),
        insert_len <= STB_TEXTEDIT_UNDOCHARCOUNT ==> {
            &&& final(state).undo_point > 0
            &&& final(state).undo_log().drop_last() == make_room(old(state).undo_log(), insert_len as int)
            &&& final(state).top().location == pos
            &&& final(state).top().insert_length == insert_len
            &&& final(state).top().delete_length == delete_len
            &&& insert_len == 0 ==> r is None && final(state).top().char_storage == -1
            &&& insert_len > 0 ==> r == Some(final(state).top().char_storage)
                && final(state).top().char_storage + insert_len == final(state).undo_char_point
        },
{
    let r_indx = stb_text_create_undo_record(state, insert_len);
    let r_indx = match r_indx {
        Some(i) => i,
        None => {
            assert(state.undo_log() =~= Seq::<UndoEntry>::empty());
            return None;
        },
    };
    let point = state.undo_char_point;
    let ghost o = *state;
    proof {
        lemma_undo_used_mono(o.undo_rec@, 0, o.undo_point as int);
    }
    if insert_len == 0 {
        state.undo_rec.set(
            r_indx as usize,
            StbUndoRecord { location: pos, insert_length: 0, delete_length: delete_len, char_storage: -1 },
        );
    } else {
        state.undo_rec.set(
            r_indx as usize,
            StbUndoRecord {
                location: pos,
                insert_length: insert_len,
                delete_length: delete_len,
                char_storage: point,
            },
        );
        state.undo_char_point = state.undo_char_point + insert_len;
    }
    proof {
        let a = state.undo_rec@;
        let b = o.undo_rec@;
        let t = r_indx as int;
        assert forall|j: int| 0 <= j < t implies #[trigger] stored(a[j]) == stored(b[j]) && a[j] == b[j] by {}
        lemma_undo_used_same(a, b, t);
        assert(undo_used(b, t + 1) == undo_used(b, t) + stored(b[t]));
        assert(undo_used(a, t + 1) == undo_used(a, t) + stored(a[t]));
        assert forall|j: int| 0 <= j < state.undo_point implies #[trigger] record_ok(a[j]) && (
        a[j].char_storage >= 0 ==> a[j].char_storage == undo_used(a, j)) by {
            if j < t {
                assert(record_ok(b[j]));
                lemma_undo_used_same(a, b, j);
            }
        }
        assert(state.redo_log() =~= Seq::<UndoEntry>::empty());
        assert(state.undo_log().drop_last() =~= o.undo_log().drop_last());
    }
    if insert_len == 0 {
        None
    } else {
        Some(point)
    }
}

/// Storing characters in the slot of the most recent undo record changes
/// that record's text and nothing else of the log.
pub proof fn lemma_fill_top(o: StbUndoState, n: StbUndoState)
    requires
        o.wf(),
        o.undo_point > 0,
        o.top().char_storage >= 0,
        n.undo_rec == o.undo_rec,
        n.undo_point == o.undo_point,
        n.redo_point == o.redo_point,
        n.undo_char_point == o.undo_char_point,
        n.redo_char_point == o.redo_char_point,
        n.undo_char@.len() == o.undo_char@.len(),
        forall|k: int|
            0 <= k < o.undo_char@.len() && !(o.top().char_storage <= k < o.top().char_storage
                + o.top().insert_length) ==> #[trigger] n.undo_char@[k] == o.undo_char@[k],
    ensures
        n.wf(),
        n.undo_log().drop_last() == o.undo_log().drop_last(),
        n.undo_log().last() == entry_of(o.top(), n.undo_char@),
        n.redo_log() == o.redo_log(),
{
    lemma_storage_in_bounds(o);
    let recs = o.undo_rec@;
    let t = o.undo_point - 1;
    assert(record_ok(recs[t]));
    assert forall|j: int| 0 <= j < t implies #[trigger] n.undo_log()[j] == o.undo_log()[j] by {
        assert(record_ok(recs[j]));
        lemma_undo_used_mono(recs, j + 1, t);
        if recs[j].char_storage >= 0 {
            assert(n.undo_char@.subrange(recs[j].char_storage as int, recs[j].char_storage
                + recs[j].insert_length) =~= o.undo_char@.subrange(recs[j].char_storage as int,
                recs[j].char_storage + recs[j].insert_length));
        }
    }
    assert(n.undo_log().drop_last() =~= o.undo_log().drop_last());
    assert forall|j: int| 0 <= j < n.redo_log().len() implies #[trigger] n.redo_log()[j] == o.redo_log()[j] by {
        let k = o.redo_point + j;
        assert(record_ok(recs[k]));
        if recs[k].char_storage >= 0 {
            assert(n.undo_char@.subrange(recs[k].char_storage as int, recs[k].char_storage
                + recs[k].insert_length) =~= o.undo_char@.subrange(recs[k].char_storage as int,
                recs[k].char_storage + recs[k].insert_length));
        }
    }
    assert(n.redo_log() =~= o.redo_log());
}

/// Both arrays have their fixed sizes.
pub open spec fn sized(u: StbUndoState) -> bool {
    u.undo_rec@.len() == STB_TEXTEDIT_UNDOSTATECOUNT && u.undo_char@.len() == STB_TEXTEDIT_UNDOCHARCOUNT
}

/// Records below `hi` are the same in both.
pub open spec fn same_recs(a: StbUndoState, b: StbUndoState, lo: int, hi: int) -> bool {
    forall|i: int| lo <= i < hi ==> #[trigger] b.undo_rec@[i] == a.undo_rec@[i]
}

/// Characters in `[lo, hi)` are the same in both.
pub open spec fn same_chars(a: StbUndoState, b: StbUndoState, lo: int, hi: int) -> bool {
    forall|k: int| lo <= k < hi ==> #[trigger] b.undo_char@[k] == a.undo_char@[k]
}

proof fn lemma_undo_texts(a: StbUndoState, b: StbUndoState, n: int)
    requires
        a.undo_ok(),
        a.undo_char_point <= STB_TEXTEDIT_UNDOCHARCOUNT,
        sized(a),
        sized(b),
        0 <= n <= a.undo_point,
        same_recs(a, b, 0, n),
        same_chars(a, b, 0, undo_used(a.undo_rec@, n)),
    ensures
        forall|j: int|
            0 <= j < n ==> #[trigger] entry_of(b.undo_rec@[j], b.undo_char@) == entry_of(
                a.undo_rec@[j],
                a.undo_char@,
            ),
        forall|j: int|
            0 <= j <= n ==> #[trigger] undo_used(b.undo_rec@, j) == undo_used(a.undo_rec@, j),
{
    let ra = a.undo_rec@;
    let rb = b.undo_rec@;
    assert forall|j: int| 0 <= j < a.undo_point implies #[trigger] record_ok(ra[j]) by {}
    assert forall|j: int| 0 <= j <= n implies #[trigger] undo_used(rb, j) == undo_used(ra, j) by {
        assert forall|t: int| 0 <= t < j implies #[trigger] stored(rb[t]) == stored(ra[t]) by {
            assert(rb[t] == ra[t]);
        }
        lemma_undo_used_same(rb, ra, j);
    }
    assert forall|j: int| 0 <= j < n implies #[trigger] entry_of(rb[j], b.undo_char@) == entry_of(
        ra[j],
        a.undo_char@,
    ) by {
        assert(rb[j] == ra[j]);
        assert(record_ok(ra[j]));
        lemma_undo_used_mono(ra, j + 1, n);
        lemma_undo_used_mono(ra, n, a.undo_point as int);
        assert(undo_used(ra, j + 1) == undo_used(ra, j) + stored(ra[j]));
        lemma_undo_used_mono(ra, 0, j);
        if ra[j].char_storage >= 0 {
            assert(b.undo_char@.subrange(ra[j].char_storage as int, ra[j].char_storage
                + ra[j].insert_length) =~= a.undo_char@.subrange(ra[j].char_storage as int,
                ra[j].char_storage + ra[j].insert_length));
        }
    }
}

proof fn lemma_redo_texts(a: StbUndoState, b: StbUndoState, n: int)
    requires
        a.redo_ok(),
        sized(a),
        sized(b),
        a.redo_point <= n <= STB_TEXTEDIT_UNDOSTATECOUNT,
        same_recs(a, b, n, STB_TEXTEDIT_UNDOSTATECOUNT as int),
        same_chars(
            a,
            b,
            STB_TEXTEDIT_UNDOCHARCOUNT - redo_used(a.undo_rec@, n),
            STB_TEXTEDIT_UNDOCHARCOUNT as int,
        ),
    ensures
        forall|j: int|
            n <= j < STB_TEXTEDIT_UNDOSTATECOUNT ==> #[trigger] entry_of(b.undo_rec@[j], b.undo_char@)
                == entry_of(a.undo_rec@[j], a.undo_char@),
        forall|j: int|
            n <= j <= STB_TEXTEDIT_UNDOSTATECOUNT ==> #[trigger] redo_used(b.undo_rec@, j)
                == redo_used(a.undo_rec@, j),
{
    let ra = a.undo_rec@;
    let rb = b.undo_rec@;
    assert forall|j: int| a.redo_point <= j < STB_TEXTEDIT_UNDOSTATECOUNT implies #[trigger] record_ok(
        ra[j],
    ) by {}
    assert forall|j: int| n <= j <= STB_TEXTEDIT_UNDOSTATECOUNT implies #[trigger] redo_used(rb, j)
        == redo_used(ra, j) by {
        assert forall|t: int| j <= t < STB_TEXTEDIT_UNDOSTATECOUNT implies #[trigger] stored(rb[t])
            == stored(ra[t]) by {
            assert(rb[t] == ra[t]);
        }
        lemma_redo_used_same(rb, ra, j);
    }
    assert forall|j: int| n <= j < STB_TEXTEDIT_UNDOSTATECOUNT implies #[trigger] entry_of(
        rb[j],
        b.undo_char@,
    ) == entry_of(ra[j], a.undo_char@) by {
        assert(rb[j] == ra[j]);
        assert(record_ok(ra[j]));
        lemma_redo_used_mono(ra, n, j);
        lemma_redo_used_mono(ra, j + 1, j + 1);
        assert(redo_used(ra, j) == stored(ra[j]) + redo_used(ra, j + 1));
        if ra[j].char_storage >= 0 {
            assert(b.undo_char@.subrange(ra[j].char_storage as int, ra[j].char_storage
                + ra[j].insert_length) =~= a.undo_char@.subrange(ra[j].char_storage as int,
                ra[j].char_storage + ra[j].insert_length));
        }
    }
}

/// Dropping the most recent undo record.
pub proof fn lemma_undo_pop(a: StbUndoState, b: StbUndoState)
    requires
        a.undo_ok(),
        a.undo_char_point <= STB_TEXTEDIT_UNDOCHARCOUNT,
        sized(a),
        sized(b),
        a.undo_point > 0,
        b.undo_point == a.undo_point - 1,
        b.undo_char_point == a.undo_char_point - stored(a.top()),
        same_recs(a, b, 0, b.undo_point as int),
        same_chars(a, b, 0, b.undo_char_point as int),
    ensures
        b.undo_ok(),
        b.undo_log() == a.undo_log().drop_last(),
{
    let n = b.undo_point as int;
    assert(undo_used(a.undo_rec@, n + 1) == undo_used(a.undo_rec@, n) + stored(a.undo_rec@[n]));
    lemma_undo_texts(a, b, n);
    assert forall|j: int| 0 <= j < n implies #[trigger] record_ok(b.undo_rec@[j]) && (
    b.undo_rec@[j].char_storage >= 0 ==> b.undo_rec@[j].char_storage == undo_used(b.undo_rec@, j)) by {
        assert(b.undo_rec@[j] == a.undo_rec@[j]);
        assert(record_ok(a.undo_rec@[j]));
    }
    assert(b.undo_log() =~= a.undo_log().drop_last());
}

/// Adding a record on top of the undo records.
pub proof fn lemma_undo_push(a: StbUndoState, b: StbUndoState, rec: StbUndoRecord)
    requires
        a.undo_ok(),
        a.undo_char_point <= STB_TEXTEDIT_UNDOCHARCOUNT,
        sized(a),
        sized(b),
        a.undo_point < STB_TEXTEDIT_UNDOSTATECOUNT,
        b.undo_point == a.undo_point + 1,
        b.undo_rec@[a.undo_point as int] == rec,
        record_ok(rec),
        rec.char_storage >= 0 ==> rec.char_storage == a.undo_char_point,
        b.undo_char_point == a.undo_char_point + stored(rec),
        same_recs(a, b, 0, a.undo_point as int),
        same_chars(a, b, 0, a.undo_char_point as int),
    ensures
        b.undo_ok(),
        b.undo_log() == a.undo_log().push(entry_of(rec, b.undo_char@)),
{
    let n = a.undo_point as int;
    lemma_undo_texts(a, b, n);
    assert(undo_used(b.undo_rec@, n + 1) == undo_used(b.undo_rec@, n) + stored(rec));
    assert forall|j: int| 0 <= j < n + 1 implies #[trigger] record_ok(b.undo_rec@[j]) && (
    b.undo_rec@[j].char_storage >= 0 ==> b.undo_rec@[j].char_storage == undo_used(b.undo_rec@, j)) by {
        if j < n {
            assert(b.undo_rec@[j] == a.undo_rec@[j]);
            assert(record_ok(a.undo_rec@[j]));
        } else {
            assert(b.undo_rec@[j] == rec);
            assert(undo_used(b.undo_rec@, n) == undo_used(a.undo_rec@, n));
        }
    }
    assert(undo_used(b.undo_rec@, n) == undo_used(a.undo_rec@, n));
    assert(b.undo_log() =~= a.undo_log().push(entry_of(rec, b.undo_char@)));
}

/// Dropping the next redo record.
pub proof fn lemma_redo_pop(a: StbUndoState, b: StbUndoState)
    requires
        a.redo_ok(),
        sized(a),
        sized(b),
        a.redo_point < STB_TEXTEDIT_UNDOSTATECOUNT,
        b.redo_point == a.redo_point + 1,
        b.redo_char_point == a.redo_char_point + stored(a.undo_rec@[a.redo_point as int]),
        same_recs(a, b, b.redo_point as int, STB_TEXTEDIT_UNDOSTATECOUNT as int),
        same_chars(a, b, b.redo_char_point as int, STB_TEXTEDIT_UNDOCHARCOUNT as int),
    ensures
        b.redo_ok(),
        b.redo_log() == a.redo_log().drop_first(),
{
    let n = b.redo_point as int;
    assert(redo_used(a.undo_rec@, n - 1) == stored(a.undo_rec@[n - 1]) + redo_used(a.undo_rec@, n));
    lemma_redo_texts(a, b, n);
    assert forall|j: int| n <= j < STB_TEXTEDIT_UNDOSTATECOUNT implies #[trigger] record_ok(
        b.undo_rec@[j],
    ) && (b.undo_rec@[j].char_storage >= 0 ==> b.undo_rec@[j].char_storage
        == STB_TEXTEDIT_UNDOCHARCOUNT - redo_used(b.undo_rec@, j)) by {
        assert(b.undo_rec@[j] == a.undo_rec@[j]);
        assert(record_ok(a.undo_rec@[j]));
    }
    assert(b.redo_log() =~= a.redo_log().drop_first());
}

/// Adding a record in front of the redo records.
pub proof fn lemma_redo_push(a: StbUndoState, b: StbUndoState, rec: StbUndoRecord)
    requires
        a.redo_ok(),
        sized(a),
        sized(b),
        a.redo_point > 0,
        b.redo_point == a.redo_point - 1,
        b.undo_rec@[b.redo_point as int] == rec,
        record_ok(rec),
        rec.char_storage >= 0 ==> rec.char_storage == a.redo_char_point - rec.insert_length,
        b.redo_char_point == a.redo_char_point - stored(rec),
        same_recs(a, b, a.redo_point as int, STB_TEXTEDIT_UNDOSTATECOUNT as int),
        same_chars(a, b, a.redo_char_point as int, STB_TEXTEDIT_UNDOCHARCOUNT as int),
    ensures
        b.redo_ok(),
        b.redo_log() == seq![entry_of(rec, b.undo_char@)] + a.redo_log(),
{
    let n = a.redo_point as int;
    lemma_redo_texts(a, b, n);
    assert(redo_used(b.undo_rec@, n - 1) == stored(rec) + redo_used(b.undo_rec@, n));
    assert forall|j: int| n - 1 <= j < STB_TEXTEDIT_UNDOSTATECOUNT implies #[trigger] record_ok(
        b.undo_rec@[j],
    ) && (b.undo_rec@[j].char_storage >= 0 ==> b.undo_rec@[j].char_storage
        == STB_TEXTEDIT_UNDOCHARCOUNT - redo_used(b.undo_rec@, j)) by {
        if j >= n {
            assert(b.undo_rec@[j] == a.undo_rec@[j]);
            assert(record_ok(a.undo_rec@[j]));
        }
    }
    assert(b.redo_log() =~= seq![entry_of(rec, b.undo_char@)] + a.redo_log());
}

} // verus!
