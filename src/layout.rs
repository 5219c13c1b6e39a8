//! Walking the layout row by row: from a position on screen to a character
//! and from a character to its position on screen.
use vstd::prelude::*;
use vstd::arithmetic::div_mod::lemma_fundamental_div_mod_converse;
use crate::text::{
    TextBuffer, StbTexteditRow, row_len, next_newline, lemma_next_newline, STB_TEXTEDIT_NEWLINE,
    MAX_TEXT_LEN, MAX_GLYPH_SIZE, STB_TEXTEDIT_GETCHAR, STB_TEXTEDIT_STRINGLEN,
    STB_TEXTEDIT_LAYOUTROW, STB_TEXTEDIT_GETWIDTH,
};
use crate::edit::{line_start, lemma_line_start};
use crate::editor::{STB_TexteditState, same_settings};

verus! {

/// Where a character is and the row that holds it.
#[derive(Debug, Clone, Copy, PartialEq, Eq)]
pub struct StbFindState {
    /// x position of n'th character
    pub x: i32,
    /// y position of n'th character
    pub y: i32,
    /// height of line
    pub height: i32,
    /// first char of row
    pub first_char: i32,
    /// length of row
    pub length: i32,
    /// first char of previous row
    pub prev_first: i32,
}

/// A position at the origin of an empty row.
pub fn StbFindState() -> (r: StbFindState)
    ensures
        r.x == 0 && r.y == 0 && r.height == 0,
        r.first_char == 0 && r.length == 0 && r.prev_first == 0,
{
    StbFindState { x: 0, y: 0, height: 0, first_char: 0, length: 0, prev_first: 0 }
}

/// Start of row `k`, counting from the top; rows past the end start at the
/// end.
pub open spec fn row_start(s: Seq<i32>, k: int) -> int
    decreases k,
{
    if k <= 0 {
        0
    } else {
        let p = row_start(s, k - 1);
        if p >= s.len() {
            p
        } else {
            p + row_len(s, p)
        }
    }
}

/// Number of newlines before position `p`.
pub open spec fn nl_count(s: Seq<i32>, p: int) -> int
    decreases p,
{
    if p <= 0 {
        0
    } else {
        nl_count(s, p - 1) + if s[p - 1] == STB_TEXTEDIT_NEWLINE {
            1int
        } else {
            0int
        }
    }
}

/// `p` begins a line.
pub open spec fn at_line_start(s: Seq<i32>, p: int) -> bool {
    p == 0 || (0 < p <= s.len() && s[p - 1] == STB_TEXTEDIT_NEWLINE)
}

/// The character, and the side flag, that a click at `(x, y)` lands on:
/// the row under `y`, then the character under `x`, rounding to the nearer
/// edge; past the end of a row, its newline or its end; below the text, its
/// end.
pub open spec fn locate(b: TextBuffer, x: int, y: int) -> (int, int) {
    let s = b@;
    let n = s.len() as int;
    let w = b.char_width as int;
    if n == 0 {
        (0, 1)
    } else if y < 0 {
        (0, 0)
    } else {
        let i = row_start(s, y / b.row_height as int);
        if i >= n {
            (n, 1)
        } else {
            let nc = row_len(s, i);
            if x < 0 {
                (i, 0)
            } else if x < nc * w {
                let k = x / w;
                (
                    if x < k * w + w / 2 {
                        i + k
                    } else {
                        i + k + 1
                    },
                    if k == 0 {
                        0
                    } else {
                        1
                    },
                )
            } else if s[i + nc - 1] == STB_TEXTEDIT_NEWLINE {
                (i + nc - 1, 1)
            } else {
                (i + nc, 1)
            }
        }
    }
}

pub proof fn lemma_row_len(s: Seq<i32>, i: int)
    requires
        0 <= i < s.len(),
    ensures
        1 <= row_len(s, i) <= s.len() - i,
        forall|j: int| i <= j < i + row_len(s, i) - 1 ==> s[j] != STB_TEXTEDIT_NEWLINE,
        i + row_len(s, i) < s.len() ==> s[i + row_len(s, i) - 1] == STB_TEXTEDIT_NEWLINE,
        i + row_len(s, i) == s.len() && s[s.len() - 1] == STB_TEXTEDIT_NEWLINE ==> next_newline(s, i)
            == s.len() - 1,
        next_newline(s, i) < s.len() ==> s[next_newline(s, i)] == STB_TEXTEDIT_NEWLINE
            && i + row_len(s, i) == next_newline(s, i) + 1,
{
    lemma_next_newline(s, i);
}

proof fn lemma_nl_count_flat(s: Seq<i32>, i: int, q: int)
    requires
        0 <= i <= q <= s.len(),
        forall|j: int| i <= j < q ==> s[j] != STB_TEXTEDIT_NEWLINE,
    ensures
        nl_count(s, q) == nl_count(s, i),
    decreases q - i,
{
    if q > i {
        lemma_nl_count_flat(s, i, q - 1);
    }
}

proof fn lemma_line_start_flat(s: Seq<i32>, i: int, q: int)
    requires
        0 <= i <= q <= s.len(),
        at_line_start(s, i),
        forall|j: int| i <= j < q ==> s[j] != STB_TEXTEDIT_NEWLINE,
    ensures
        line_start(s, q) == i,
    decreases q - i,
{
    if q > i {
        lemma_line_start_flat(s, i, q - 1);
    }
}

/// Position `p` of the text sits in row `nl_count(s, p)`, which begins at
/// the start of `p`'s line.
pub proof fn lemma_row_of(s: Seq<i32>, p: int)
    requires
        0 <= p <= s.len(),
    ensures
        row_start(s, nl_count(s, p)) == line_start(s, p),
        0 <= nl_count(s, p) <= p,
    decreases p,
{
    lemma_line_start(s, p);
    let ls = line_start(s, p);
    lemma_nl_count_flat(s, ls, p);
    if ls == 0 {
        assert(nl_count(s, 0) == 0);
    } else {
        lemma_row_of(s, ls - 1);
        let pl = line_start(s, ls - 1);
        lemma_line_start(s, ls - 1);
        assert(nl_count(s, ls) == nl_count(s, ls - 1) + 1);
        let k = nl_count(s, ls - 1);
        assert(row_start(s, k) == pl);
        lemma_next_newline(s, pl);
        assert(next_newline(s, pl) == ls - 1) by {
            lemma_next_newline_at(s, pl, ls - 1);
        }
        assert(row_start(s, k + 1) == ls);
    }
}

proof fn lemma_next_newline_at(s: Seq<i32>, i: int, q: int)
    requires
        0 <= i <= q < s.len(),
        s[q] == STB_TEXTEDIT_NEWLINE,
        forall|j: int| i <= j < q ==> s[j] != STB_TEXTEDIT_NEWLINE,
    ensures
        next_newline(s, i) == q,
    decreases q - i,
{
    if i < q {
        lemma_next_newline_at(s, i + 1, q);
    }
}

/// Finds the character nearest to the display position `(x, y)`; sets
/// `out_side_on_line` to 0 when it is at the start of its row, else 1.
pub fn stb_text_locate_coord(str: &TextBuffer, x: i32, y: i32, out_side_on_line: &mut i32) -> (r: i32)
    requires
        str.wf(),
    ensures
        (r as int, *final(out_side_on_line) as int) == locate(*str, x as int, y as int),
{
    let mut r = StbTexteditRow();
    let n = STB_TEXTEDIT_STRINGLEN(str);
    let mut base_y: i32 = 0;
    let mut i: i32 = 0;
    let ghost mut j: int = 0;
    let ghost s = str@;
    let h = str.row_height;
    let w = str.char_width;
    *out_side_on_line = 0;
    // search rows to find one that straddles 'y'
    while i < n
        invariant
            str.wf(),
            s == str@,
            n == s.len(),
            h == str.row_height,
            0 <= j <= i <= n,
            i == row_start(s, j),
            base_y == j * h,
            j > 0 ==> y >= j * h,
            i >= n ==> n == 0 || (y >= 0 && row_start(s, (y as int) / (h as int)) >= n),
            *out_side_on_line == 0,
        ensures
            i >= n ==> n == 0 || (y >= 0 && row_start(s, (y as int) / (h as int)) >= n),
            i < n ==> r == str.row_at(i as int) && 0 <= y && i == row_start(s, (y as int) / (h as int)),
        decreases n - i,
    {
        STB_TEXTEDIT_LAYOUTROW(&mut r, str, i);
        proof {
            lemma_row_len(s, i as int);
            assert(j * h <= i * h) by (nonlinear_arith)
                requires
                    0 <= j <= i,
                    0 <= h,
            ;
            assert(i * h <= MAX_TEXT_LEN * MAX_GLYPH_SIZE) by (nonlinear_arith)
                requires
                    0 <= i <= MAX_TEXT_LEN,
                    0 <= h <= MAX_GLYPH_SIZE,
            ;
        }
        if r.num_chars <= 0 {
            return n;
        }
        if i == 0 && y < base_y + r.ymin {
            return 0;
        }
        if y < base_y + r.ymax {
            proof {
                lemma_fundamental_div_mod_converse(y as int, h as int, j, y - j * h);
            }
            break;
        }
        i = i + r.num_chars;
        base_y = base_y + r.baseline_y_delta;
        proof {
            j = j + 1;
            assert(base_y == j * h) by (nonlinear_arith)
                requires
                    base_y == (j - 1) * h + h,
            ;
            if i >= n {
                assert((y as int) / (h as int) >= j) by {
                    vstd::arithmetic::div_mod::lemma_div_is_ordered(j * h, y as int, h as int);
                    vstd::arithmetic::div_mod::lemma_div_multiples_vanish(j, h as int);
                }
                lemma_row_start_past_end(s, j, (y as int) / (h as int));
            }
        }
    }
    // below all text, return 'after' last character
    if i >= n {
        *out_side_on_line = 1;
        return n;
    }
    proof {
        lemma_row_len(s, i as int);
    }
    // left of the row: its first character
    if x < r.x0 {
        return i;
    }
    let ghost nc = r.num_chars as int;
    proof {
        assert(0 <= nc * w <= MAX_TEXT_LEN * MAX_GLYPH_SIZE) by (nonlinear_arith)
            requires
                1 <= nc <= MAX_TEXT_LEN,
                1 <= w <= MAX_GLYPH_SIZE,
        ;
    }
    // inside the row
    if x < r.x1 {
        // search characters in row for one that straddles 'x'
        let mut prev_x: i32 = r.x0;
        let mut k: i32 = 0;
        while k < r.num_chars
            invariant
                0 <= k <= nc,
                r.num_chars == nc,
                1 <= nc,
                0 <= i,
                i + nc <= n,
                n <= MAX_TEXT_LEN,
                r.x1 == nc * w,
                1 <= w <= MAX_GLYPH_SIZE,
                prev_x == k * w,
                0 <= x < r.x1,
                x >= prev_x,
                w == str.char_width,
                *out_side_on_line == 0,
                str.wf(),
                s == str@,
                n == s.len(),
                h == str.row_height,
                r == str.row_at(i as int),
                0 <= y,
                i == row_start(s, (y as int) / (h as int)),
                nc == row_len(s, i as int),
                i < n,
            decreases r.num_chars - k,
        {
            let wd = STB_TEXTEDIT_GETWIDTH(str, i, k);
            proof {
                assert(k * w + w <= nc * w) by (nonlinear_arith)
                    requires
                        0 <= k < nc,
                        0 < w,
                ;
            }
            if x < prev_x + wd {
                *out_side_on_line = if k == 0 {
                    0
                } else {
                    1
                };
                proof {
                    lemma_fundamental_div_mod_converse(x as int, w as int, k as int, x - k * w);
                }
                if x < prev_x + wd / 2 {
                    return k + i;
                } else {
                    return i + k + 1;
                }
            }
            prev_x = prev_x + wd;
            proof {
                assert(prev_x == (k + 1) * w) by (nonlinear_arith)
                    requires
                        prev_x == k * w + w,
                ;
            }
            k = k + 1;
        }
        proof {
            assert(false) by (nonlinear_arith)
                requires
                    k == nc,
                    prev_x == k * w,
                    x >= prev_x,
                    x < nc * w,
            ;
        }
    }
    // past the end of the row: its newline, or after its last character
    *out_side_on_line = 1;
    if STB_TEXTEDIT_GETCHAR(str, i + r.num_chars - 1) == STB_TEXTEDIT_NEWLINE {
        i + r.num_chars - 1
    } else {
        i + r.num_chars
    }
}

/// Rows past the end of the text all start at its end.
proof fn lemma_row_start_past_end(s: Seq<i32>, j: int, k: int)
    requires
        0 <= j <= k,
        row_start(s, j) >= s.len(),
    ensures
        row_start(s, k) == row_start(s, j),
    decreases k - j,
{
    if k > j {
        lemma_row_start_past_end(s, j, k - 1);
    }
}

/// Finds where character `n` is on screen, with the row that holds it and
/// the start of the row before. A text ending in a newline has an empty last
/// row; in a single-line field the end of the text is the end of the first
/// row.
pub fn stb_textedit_find_charpos(find: &mut StbFindState, str: &TextBuffer, n: i32, single_line: i32)
    requires
        str.wf(),
        0 <= n <= str@.len(),
    ensures
        n == str@.len() && single_line != 0 ==> {
            &&& final(find).y == 0
            &&& final(find).first_char == 0
            &&& final(find).length == str@.len()
            &&& final(find).height == str.row_height
            &&& final(find).x == row_len(str@, 0) * str.char_width
            &&& final(find).prev_first == old(find).prev_first
        },
        !(n == str@.len() && single_line != 0) ==> {
            let s = str@;
            let first = line_start(s, n as int);
            &&& final(find).first_char == first
            &&& first == row_start(s, nl_count(s, n as int))
            &&& final(find).y == nl_count(s, n as int) * str.row_height
            &&& final(find).x == (n - first) * str.char_width
            &&& final(find).length == if first < s.len() {
                row_len(s, first)
            } else {
                0
            }
            &&& final(find).height == str.row_height
            &&& final(find).prev_first == if first == 0 {
                0
            } else {
                line_start(s, first - 1)
            }
        },
{
    let mut r = StbTexteditRow();
    let mut prev_start: i32 = 0;
    let z = STB_TEXTEDIT_STRINGLEN(str);
    let mut i: i32 = 0;
    let ghost s = str@;
    let ghost mut j: int = 0;
    let h = str.row_height;
    let w = str.char_width;
    if n == z && single_line != 0 {
        // the end of a single-line field is the end of its first row
        STB_TEXTEDIT_LAYOUTROW(&mut r, str, 0);
        proof {
            lemma_next_newline(s, 0);
            assert(0 <= row_len(s, 0) <= s.len());
            assert(row_len(s, 0) * w <= MAX_TEXT_LEN * MAX_GLYPH_SIZE) by (nonlinear_arith)
                requires
                    0 <= row_len(s, 0) <= MAX_TEXT_LEN,
                    1 <= w <= MAX_GLYPH_SIZE,
            ;
        }
        find.y = 0;
        find.first_char = 0;
        find.length = z;
        find.height = r.ymax - r.ymin;
        find.x = r.x1;
        return;
    }
    // search rows to find the one that straddles character n
    find.y = 0;
    STB_TEXTEDIT_LAYOUTROW(&mut r, str, 0);
    if z > 0 {
        loop
            invariant_except_break
                i < z,
            invariant
                str.wf(),
                s == str@,
                z == s.len(),
                h == str.row_height,
                0 <= n <= z,
                0 <= j <= i <= n,
                i == row_start(s, j),
                at_line_start(s, i as int),
                nl_count(s, i as int) == j,
                find.y == j * h,
                j == 0 ==> prev_start == 0,
                j > 0 ==> prev_start == row_start(s, j - 1) && prev_start < i && at_line_start(
                    s,
                    prev_start as int,
                ) && forall|q: int| prev_start <= q < i - 1 ==> s[q] != STB_TEXTEDIT_NEWLINE,
                j > 0 ==> s[i - 1] == STB_TEXTEDIT_NEWLINE,
            ensures
                0 <= j <= i <= n,
                i == row_start(s, j),
                at_line_start(s, i as int),
                nl_count(s, i as int) == j,
                find.y == j * h,
                forall|q: int| i <= q < n ==> s[q] != STB_TEXTEDIT_NEWLINE,
                r.num_chars == if i < z {
                    row_len(s, i as int)
                } else {
                    0
                },
                r.ymin == 0,
                r.ymax == h,
                j == 0 ==> prev_start == 0,
                j > 0 ==> prev_start == row_start(s, j - 1) && at_line_start(s, prev_start as int)
                    && forall|q: int| prev_start <= q < i - 1 ==> s[q] != STB_TEXTEDIT_NEWLINE,
                j > 0 ==> prev_start < i && s[i - 1] == STB_TEXTEDIT_NEWLINE,
            decreases z - i,
        {
            STB_TEXTEDIT_LAYOUTROW(&mut r, str, i);
            proof {
                lemma_row_len(s, i as int);
                assert(j * h <= i * h) by (nonlinear_arith)
                    requires
                        0 <= j <= i,
                        0 <= h,
                ;
                assert(i * h <= MAX_TEXT_LEN * MAX_GLYPH_SIZE) by (nonlinear_arith)
                    requires
                        0 <= i <= MAX_TEXT_LEN,
                        0 <= h <= MAX_GLYPH_SIZE,
                ;
            }
            if n < i + r.num_chars {
                break;
            }
            if i + r.num_chars == z && STB_TEXTEDIT_GETCHAR(str, z - 1) != STB_TEXTEDIT_NEWLINE {
                // the last row holds the position after the last character
                break;
            }
            prev_start = i;
            i = i + r.num_chars;
            find.y = find.y + r.baseline_y_delta;
            proof {
                j = j + 1;
                assert(find.y == j * h) by (nonlinear_arith)
                    requires
                        find.y == (j - 1) * h + h,
                ;
                let q = i - 1;
                lemma_nl_count_flat(s, prev_start as int, q);
                assert(nl_count(s, i as int) == nl_count(s, q) + 1);
            }
            if i == z {
                // a text ending in a newline ends with an empty row
                r.num_chars = 0;
                break;
            }
        }
    }
    find.first_char = i;
    let first = i;
    find.length = r.num_chars;
    find.height = r.ymax - r.ymin;
    find.prev_first = prev_start;
    proof {
        lemma_line_start_flat(s, i as int, n as int);
        lemma_nl_count_flat(s, i as int, n as int);
        lemma_row_of(s, n as int);
        if j > 0 {
            lemma_line_start_flat(s, prev_start as int, i - 1);
        }
    }
    // now scan to find xpos
    find.x = 0;
    let ghost f0 = *find;
    let mut k: i32 = 0;
    while first + k < n
        invariant
            0 <= k <= n - first,
            0 <= first <= n,
            n <= MAX_TEXT_LEN,
            1 <= w <= MAX_GLYPH_SIZE,
            w == str.char_width,
            find.x == k * w,
            *find == (StbFindState { x: find.x, ..f0 }),
        decreases n - first - k,
    {
        proof {
            assert(k * w + w <= MAX_TEXT_LEN * MAX_GLYPH_SIZE) by (nonlinear_arith)
                requires
                    0 <= k < MAX_TEXT_LEN,
                    1 <= w <= MAX_GLYPH_SIZE,
            ;
        }
        find.x = find.x + STB_TEXTEDIT_GETWIDTH(str, first, k);
        proof {
            assert(find.x == (k + 1) * w) by (nonlinear_arith)
                requires
                    find.x == k * w + w,
            ;
        }
        k = k + 1;
    }
}

proof fn lemma_row_start_nonneg(s: Seq<i32>, k: int)
    ensures
        0 <= row_start(s, k),
        row_start(s, k) <= s.len() || k <= 0,
    decreases k,
{
    if k > 0 {
        lemma_row_start_nonneg(s, k - 1);
        let p = row_start(s, k - 1);
        if p < s.len() {
            lemma_row_len(s, p);
        }
    }
}

/// A click lands on a position of the text.
pub proof fn lemma_locate_in_range(b: TextBuffer, x: int, y: int)
    requires
        b.wf(),
    ensures
        0 <= locate(b, x, y).0 <= b@.len(),
        locate(b, x, y).1 == 0 || locate(b, x, y).1 == 1,
{
    let s = b@;
    let n = s.len() as int;
    let w = b.char_width as int;
    if n > 0 && y >= 0 {
        let i = row_start(s, y / b.row_height as int);
        lemma_row_start_nonneg(s, y / b.row_height as int);
        if i < n {
            lemma_row_len(s, i);
            let nc = row_len(s, i);
            if 0 <= x < nc * w {
                let k = x / w;
                vstd::arithmetic::div_mod::lemma_fundamental_div_mod(x, w);
                assert(k < nc) by (nonlinear_arith)
                    requires
                        x == w * k + x % w,
                        0 <= x % w,
                        x < nc * w,
                        0 < w,
                ;
                assert(0 <= k) by (nonlinear_arith)
                    requires
                        x == w * k + x % w,
                        x % w < w,
                        0 <= x,
                        0 < w,
                ;
            }
        }
    }
}

/// A click just right of where `stb_textedit_find_charpos` puts character
/// `n`, by less than half a character, lands on `n`.
pub proof fn lemma_locate_finds(b: TextBuffer, n: int, eps: int)
    requires
        b.wf(),
        0 <= n < b@.len(),
        0 <= eps < b.char_width / 2,
    ensures
        locate(
            b,
            (n - line_start(b@, n)) * b.char_width + eps,
            nl_count(b@, n) * b.row_height,
        ).0 == n,
{
    let s = b@;
    let w = b.char_width as int;
    let h = b.row_height as int;
    let ls = line_start(s, n);
    let j = nl_count(s, n);
    lemma_line_start(s, n);
    lemma_row_of(s, n);
    let y = j * h;
    vstd::arithmetic::div_mod::lemma_div_multiples_vanish(j, h);
    assert(y / h == j) by {
        assert(y == h * j) by (nonlinear_arith)
            requires
                y == j * h,
        ;
    }
    assert(0 <= y) by (nonlinear_arith)
        requires
            y == j * h,
            0 <= j,
            0 < h,
    ;
    lemma_next_newline(s, ls);
    lemma_row_len(s, ls);
    let nc = row_len(s, ls);
    assert(next_newline(s, ls) >= n);
    assert(n - ls < nc);
    let k = n - ls;
    let x = k * w + eps;
    lemma_fundamental_div_mod_converse(x, w, k, eps);
    assert(x < nc * w) by (nonlinear_arith)
        requires
            x == k * w + eps,
            eps < w,
            k + 1 <= nc,
            0 < w,
    ;
    assert(0 <= x) by (nonlinear_arith)
        requires
            x == k * w + eps,
            0 <= k,
            0 <= eps,
            0 < w,
    ;
}

/// On mouse down: moves the cursor to the clicked character and drops the
/// selection. A single-line field ignores `y`.
pub fn stb_textedit_click(str: &TextBuffer, state: &mut STB_TexteditState, x: i32, y: i32)
    requires
        str.wf(),
    ensures
        ({
            let yy = if old(state).single_line != 0 {
                0
            } else {
                y as int
            };
            let p = locate(*str, x as int, yy).0;
            &&& final(state).cursor == p
            &&& final(state).select_start == p
            &&& final(state).select_end == p
        }),
        final(state).has_preferred_x == 0,
        final(state).in_range(str@.len() as int),
        final(state).undostate == old(state).undostate,
        final(state).preferred_x == old(state).preferred_x,
        same_settings(*old(state), *final(state)),
{
    let mut yy = y;
    let mut side_on_line: i32 = 0;
    if state.single_line != 0 {
        // keep tracking the row when the mouse leaves the field vertically
        let mut r = StbTexteditRow();
        STB_TEXTEDIT_LAYOUTROW(&mut r, str, 0);
        yy = r.ymin;
    }
    state.cursor = stb_text_locate_coord(str, x, yy, &mut side_on_line);
    proof {
        lemma_locate_in_range(*str, x as int, yy as int);
    }
    state.select_start = state.cursor;
    state.select_end = state.cursor;
    state.has_preferred_x = 0;
}

/// On mouse drag: moves the cursor and the selection's end to the
/// character under the mouse, anchoring a new selection at the cursor.
pub fn stb_textedit_drag(str: &TextBuffer, state: &mut STB_TexteditState, x: i32, y: i32)
    requires
        str.wf(),
    ensures
        ({
            let yy = if old(state).single_line != 0 {
                0
            } else {
                y as int
            };
            let p = locate(*str, x as int, yy).0;
            &&& final(state).cursor == p
            &&& final(state).select_end == p
            &&& final(state).select_start == if old(state).select_start == old(state).select_end {
                old(state).cursor
            } else {
                old(state).select_start
            }
        }),
        old(state).in_range(str@.len() as int) ==> final(state).in_range(str@.len() as int),
        final(state).has_preferred_x == old(state).has_preferred_x,
        final(state).undostate == old(state).undostate,
        final(state).preferred_x == old(state).preferred_x,
        same_settings(*old(state), *final(state)),
{
    let mut side_on_line: i32 = 0;
    let mut yy = y;
    if state.single_line != 0 {
        // keep tracking the row when the mouse leaves the field vertically
        let mut r = StbTexteditRow();
        STB_TEXTEDIT_LAYOUTROW(&mut r, str, 0);
        yy = r.ymin;
    }
    if state.select_start == state.select_end {
        state.select_start = state.cursor;
    }
    let p = stb_text_locate_coord(str, x, yy, &mut side_on_line);
    proof {
        lemma_locate_in_range(*str, x as int, yy as int);
    }
    state.cursor = p;
    state.select_end = p;
}

} // verus!
