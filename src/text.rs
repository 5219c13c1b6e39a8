//! The text that the editor works on, with its row layout and glyph metrics.
use vstd::prelude::*;

verus! {

/// The character value that breaks a line.
pub const STB_TEXTEDIT_NEWLINE: i32 = 10;

/// The largest number of characters a buffer may hold.
pub const MAX_TEXT_LEN: usize = 1000000;

/// The largest glyph width or row height, in pixels.
pub const MAX_GLYPH_SIZE: i32 = 1000;

/// Key codes at or above this value are commands, not characters.
pub const FIRST_COMMAND_KEY: i32 = 0x200000;

/// A string of character codes with a fixed capacity, laid out in a
/// monospace font: every character is `char_width` pixels wide, and each
/// hard line (ended by a newline, which belongs to it) is one row
/// `row_height` pixels tall.
pub struct TextBuffer {
    pub chars: Vec<i32>,
    pub capacity: usize,
    pub char_width: i32,
    pub row_height: i32,
}

/// What the layout reports of one row.
#[derive(Debug, Clone, Copy, PartialEq, Eq)]
pub struct StbTexteditRow {
    /// starting x location, end x location
    pub x0: i32,
    pub x1: i32,
    /// position of baseline relative to previous row's baseline
    pub baseline_y_delta: i32,
    /// height of row above baseline
    pub ymin: i32,
    /// height of row below baseline
    pub ymax: i32,
    pub num_chars: i32,
}

/// An empty row.
pub fn StbTexteditRow() -> (r: StbTexteditRow)
    ensures
        r.x0 == 0 && r.x1 == 0 && r.baseline_y_delta == 0,
        r.ymin == 0 && r.ymax == 0 && r.num_chars == 0,
{
    StbTexteditRow { x0: 0, x1: 0, baseline_y_delta: 0, ymin: 0, ymax: 0, num_chars: 0 }
}

impl View for TextBuffer {
    type V = Seq<i32>;

    open spec fn view(&self) -> Seq<i32> {
        self.chars@
    }
}

/// `s` with `del` characters at `at` replaced by `ins`.
pub open spec fn splice(s: Seq<i32>, at: int, del: int, ins: Seq<i32>) -> Seq<i32> {
    s.subrange(0, at) + ins + s.subrange(at + del, s.len() as int)
}

/// Index of the first newline at or after `i`, or the length when there is none.
pub open spec fn next_newline(s: Seq<i32>, i: int) -> int
    decreases s.len() - i,
{
    if i < 0 || i >= s.len() {
        s.len() as int
    } else if s[i] == STB_TEXTEDIT_NEWLINE {
        i
    } else {
        next_newline(s, i + 1)
    }
}

/// Number of characters in the row that begins at `i`, its newline included.
pub open spec fn row_len(s: Seq<i32>, i: int) -> int {
    let nl = next_newline(s, i);
    if nl < s.len() {
        nl + 1 - i
    } else {
        s.len() - i
    }
}

/// The text a key stands for, or -1 for a command key.
pub open spec fn key_text(k: i32) -> i32 {
    if 0 <= k < FIRST_COMMAND_KEY {
        k
    } else {
        -1i32
    }
}

pub proof fn lemma_next_newline(s: Seq<i32>, i: int)
    requires
        0 <= i <= s.len(),
    ensures
        i <= next_newline(s, i) <= s.len(),
        forall|j: int| i <= j < next_newline(s, i) ==> s[j] != STB_TEXTEDIT_NEWLINE,
        next_newline(s, i) < s.len() ==> s[next_newline(s, i)] == STB_TEXTEDIT_NEWLINE,
    decreases s.len() - i,
{
    if i < s.len() && s[i] != STB_TEXTEDIT_NEWLINE {
        lemma_next_newline(s, i + 1);
    }
}

impl TextBuffer {
    pub open spec fn wf(&self) -> bool {
        &&& self.chars.len() <= self.capacity <= MAX_TEXT_LEN
        &&& 1 <= self.char_width <= MAX_GLYPH_SIZE
        &&& 1 <= self.row_height <= MAX_GLYPH_SIZE
    }

    /// The layout of the row that begins at `i`.
    pub open spec fn row_at(&self, i: int) -> StbTexteditRow {
        let n = row_len(self@, i);
        StbTexteditRow {
            x0: 0,
            x1: (n * self.char_width) as i32,
            baseline_y_delta: self.row_height,
            ymin: 0,
            ymax: self.row_height,
            num_chars: n as i32,
        }
    }

    /// An empty buffer that can hold `capacity` characters.
    pub fn new(capacity: usize, char_width: i32, row_height: i32) -> (r: TextBuffer)
        requires
            capacity <= MAX_TEXT_LEN,
            1 <= char_width <= MAX_GLYPH_SIZE,
            1 <= row_height <= MAX_GLYPH_SIZE,
        ensures
            r.wf(),
            r@ == Seq::<i32>::empty(),
            r.capacity == capacity,
            r.char_width == char_width,
            r.row_height == row_height,
    {
        TextBuffer { chars: Vec::new(), capacity, char_width, row_height }
    }

    /// The characters, in order.
    pub fn as_slice(&self) -> (r: &[i32])
        ensures
            r@ == self@,
    {
        self.chars.as_slice()
    }
}

/// Number of characters in the text.
pub fn STB_TEXTEDIT_STRINGLEN(str: &TextBuffer) -> (r: i32)
    requires
        str.wf(),
    ensures
        r == str@.len(),
{
    str.chars.len() as i32
}

/// The character at `i`.
pub fn STB_TEXTEDIT_GETCHAR(obj: &TextBuffer, i: i32) -> (r: i32)
    requires
        0 <= i < obj@.len(),
    ensures
        r == obj@[i as int],
{
    obj.chars[i as usize]
}

/// Lays out the row that begins at character `i`.
pub fn STB_TEXTEDIT_LAYOUTROW(r: &mut StbTexteditRow, str: &TextBuffer, i: i32)
    requires
        str.wf(),
        0 <= i <= str@.len(),
    ensures
        *final(r) == str.row_at(i as int),
{
    let n = str.chars.len();
    let mut j: usize = i as usize;
    while j < n && str.chars[j] != STB_TEXTEDIT_NEWLINE
        invariant
            i <= j <= n,
            n == str@.len(),
            next_newline(str@, i as int) == next_newline(str@, j as int),
        decreases n - j,
    {
        j = j + 1;
    }
    if j < n {
        j = j + 1;
    }
    let num = (j - i as usize) as i32;
    proof {
        assert(num <= MAX_TEXT_LEN);
        assert(num * str.char_width <= MAX_TEXT_LEN * MAX_GLYPH_SIZE) by (nonlinear_arith)
            requires
                0 <= num <= MAX_TEXT_LEN,
                1 <= str.char_width <= MAX_GLYPH_SIZE,
        ;
    }
    *r = StbTexteditRow {
        x0: 0,
        x1: num * str.char_width,
        baseline_y_delta: str.row_height,
        ymin: 0,
        ymax: str.row_height,
        num_chars: num,
    };
}

/// Width of character `i` of the row that begins at `n`.
pub fn STB_TEXTEDIT_GETWIDTH(obj: &TextBuffer, n: i32, i: i32) -> (r: i32)
    ensures
        r == obj.char_width,
{
    obj.char_width
}

/// Removes `len` characters at `i`.
pub fn STB_TEXTEDIT_DELETECHARS(obj: &mut TextBuffer, i: i32, len: i32)
    requires
        old(obj).wf(),
        0 <= i,
        0 <= len,
        i + len <= old(obj)@.len(),
    ensures
        final(obj)@ == splice(old(obj)@, i as int, len as int, Seq::empty()),
        final(obj).capacity == old(obj).capacity,
        final(obj).char_width == old(obj).char_width,
        final(obj).row_height == old(obj).row_height,
        final(obj).wf(),
{
    let ghost s = obj@;
    let mut k: i32 = 0;
    while k < len
        invariant
            0 <= k <= len,
            0 <= i,
            i + len <= s.len(),
            obj@ == s.subrange(0, i as int) + s.subrange(i + k, s.len() as int),
            obj.capacity == old(obj).capacity,
            obj.char_width == old(obj).char_width,
            obj.row_height == old(obj).row_height,
        decreases len - k,
    {
        obj.chars.remove(i as usize);
        k = k + 1;
        assert(obj@ =~= s.subrange(0, i as int) + s.subrange(i + k, s.len() as int));
    }
    assert(obj@ =~= splice(s, i as int, len as int, Seq::empty()));
}

/// Inserts `c` at `i` when it fits in the capacity; leaves the text as it
/// was and returns false otherwise.
pub fn STB_TEXTEDIT_INSERTCHARS(obj: &mut TextBuffer, i: i32, c: &[i32]) -> (r: bool)
    requires
        old(obj).wf(),
        0 <= i <= old(obj)@.len(),
    ensures
        r == (old(obj)@.len() + c@.len() <= old(obj).capacity),
        r ==> final(obj)@ == splice(old(obj)@, i as int, 0, c@),
        !r ==> final(obj)@ == old(obj)@,
        final(obj).capacity == old(obj).capacity,
        final(obj).char_width == old(obj).char_width,
        final(obj).row_height == old(obj).row_height,
        final(obj).wf(),
{
    let ghost s = obj@;
    if c.len() > obj.capacity - obj.chars.len() {
        return false;
    }
    let mut k: usize = 0;
    while k < c.len()
        invariant
            0 <= k <= c@.len(),
            0 <= i <= s.len(),
            s.len() + c@.len() <= obj.capacity,
            obj@ == s.subrange(0, i as int) + c@.subrange(0, k as int) + s.subrange(
                i as int,
                s.len() as int,
            ),
            obj.capacity == old(obj).capacity,
            obj.char_width == old(obj).char_width,
            obj.row_height == old(obj).row_height,
        decreases c@.len() - k,
    {
        obj.chars.insert(i as usize + k, c[k]);
        k = k + 1;
        assert(obj@ =~= s.subrange(0, i as int) + c@.subrange(0, k as int) + s.subrange(
            i as int,
            s.len() as int,
        ));
    }
    assert(obj@ =~= splice(s, i as int, 0, c@));
    true
}

/// The character that a key code types, or -1 when it is a command.
pub fn STB_TEXTEDIT_KEYTOTEXT(k: i32) -> (r: i32)
    ensures
        r == key_text(k),
{
    if 0 <= k && k < FIRST_COMMAND_KEY {
        k
    } else {
        -1
    }
}

} // verus!
