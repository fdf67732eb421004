//! Layout arithmetic of the shared widgets: filter row, header, footer and
//! help entries, scrollbar thumb, details-overlay row heights, and the word
//! wrapping of long command lines.

use vstd::prelude::*;
use vstd::string::*;
use crate::text::{split_words, words, total_len, lemma_words_shape};

verus! {

/// Height of the filter row: 1 while a filter is active, 0 otherwise.
pub fn filter_row_height(filter: &str) -> (r: u16)
    ensures
        r == (if filter@.len() == 0 { 0u16 } else { 1u16 }),
{
    if filter.unicode_len() == 0 { 0 } else { 1 }
}

/// Width of the header's right-hand context: its characters plus one cell of
/// padding (wrapping like a `u16`), or 0 without context.
pub fn right_width(right: Option<&str>) -> (r: u16)
    ensures
        r == (match right {
            Some(s) => ((s@.len() + 1) % 0x1_0000) as u16,
            None => 0u16,
        }),
{
    match right {
        Some(s) => {
            let n = s.unicode_len();
            (((n as u64) % 0x1_0000) as u16).wrapping_add(1)
        },
        None => 0,
    }
}

/// One key-binding hint of the footer: `("q", "quit")`.
pub struct KeyHint<'a> {
    pub key: &'a str,
    pub action: &'a str,
}

impl<'a> KeyHint<'a> {
    pub fn new(key: &'a str, action: &'a str) -> (r: Self)
        ensures
            r.key == key,
            r.action == action,
    {
        KeyHint { key, action }
    }
}

/// One row of the help overlay: a key and what it does.
pub struct HelpEntry<'a> {
    pub key: &'a str,
    pub description: &'a str,
}

impl<'a> HelpEntry<'a> {
    pub fn new(key: &'a str, description: &'a str) -> (r: Self)
        ensures
            r.key == key,
            r.description == description,
    {
        HelpEntry { key, description }
    }
}

} // verus!

verus! {

pub open spec fn thumb_len_of(track_cells: nat, content_len: nat, visible_items: nat) -> nat {
    let visible = if visible_items == 0 { 1 } else { visible_items };
    if content_len <= visible {
        track_cells
    } else {
        let raw = (track_cells * visible + content_len / 2) / content_len;
        if raw < 1 { 1 } else if raw > track_cells { track_cells } else { raw }
    }
}

pub open spec fn thumb_top_of(track_cells: nat, content_len: nat, visible_items: nat, selected: nat) -> nat {
    let travel = (track_cells - thumb_len_of(track_cells, content_len, visible_items)) as nat;
    let max_pos = (content_len - 1) as nat;
    let sel = if selected < max_pos { selected } else { max_pos };
    if max_pos == 0 {
        0
    } else {
        (sel * travel + max_pos / 2) / max_pos
    }
}

/// The thumb arithmetic stays within `usize`: a clamped length needs at
/// least one track cell and `track_cells * visible + content_len / 2` to
/// fit, and the top needs `sel * travel + max_pos / 2` to fit.
pub open spec fn thumb_arith_fits(track_cells: nat, content_len: nat, visible_items: nat, selected: nat) -> bool {
    let visible = if visible_items == 0 { 1 } else { visible_items };
    let max_pos = content_len - 1;
    let sel = if selected < max_pos { selected as int } else { max_pos };
    &&& content_len > visible ==> track_cells >= 1 && track_cells * visible + content_len / 2 <= usize::MAX
    &&& sel * (track_cells - thumb_len_of(track_cells, content_len, visible_items)) + max_pos / 2 <= usize::MAX
}

/// Whether `thumb_geometry` can be asked for these sizes: tells exactly when
/// `thumb_arith_fits` holds, so that a caller can test it first.
pub fn thumb_arith_ok(track_cells: usize, content_len: usize, visible_items: usize, selected: usize) -> (r: bool)
    requires
        content_len >= 1,
    ensures
        r == thumb_arith_fits(track_cells as nat, content_len as nat, visible_items as nat, selected as nat),
{
    let visible: usize = if visible_items == 0 { 1 } else { visible_items };
    let len: usize = if content_len <= visible {
        track_cells
    } else {
        if track_cells == 0 {
            return false;
        }
        match track_cells.checked_mul(visible) {
            None => return false,
            Some(p) => match p.checked_add(content_len / 2) {
                None => return false,
                Some(q) => {
                    let raw = q / content_len;
                    if raw < 1 { 1 } else if raw > track_cells { track_cells } else { raw }
                },
            },
        }
    };
    let max_pos = content_len - 1;
    let sel = if selected < max_pos { selected } else { max_pos };
    match sel.checked_mul(track_cells - len) {
        None => false,
        Some(p) => p.checked_add(max_pos / 2).is_some(),
    }
}

/// Scrollbar thumb geometry `(thumb_len, thumb_top)`: the length is the
/// visible share of the track, rounded to nearest and kept within
/// `1..=track_cells` (the whole track when everything fits); the top moves
/// with the selected item, rounded to nearest, from 0 to the track's free
/// travel.
pub fn thumb_geometry(track_cells: usize, content_len: usize, visible_items: usize, selected: usize)
    -> (r: (usize, usize))
    requires
        content_len >= 1,
        thumb_arith_fits(track_cells as nat, content_len as nat, visible_items as nat, selected as nat),
    ensures
        r.0 == thumb_len_of(track_cells as nat, content_len as nat, visible_items as nat),
        r.1 == thumb_top_of(track_cells as nat, content_len as nat, visible_items as nat, selected as nat),
        track_cells >= 1 ==> 1 <= r.0 <= track_cells && r.1 + r.0 <= track_cells,
        track_cells >= 1 && selected == 0 ==> r.1 == 0,
        track_cells >= 1 && selected + 1 >= content_len ==> r.1 == track_cells - r.0,
        content_len <= (if visible_items == 0 { 1 } else { visible_items }) ==> r.0 == track_cells,
{
    proof {
        if track_cells >= 1 {
            lemma_thumb_fits(track_cells as nat, content_len as nat, visible_items as nat, selected as nat, selected as nat);
        }
    }
    let visible: usize = if visible_items == 0 { 1 } else { visible_items };
    let thumb_len: usize = if content_len <= visible {
        track_cells
    } else {
        let raw = (track_cells * visible + content_len / 2) / content_len;
        if raw < 1 { 1 } else if raw > track_cells { track_cells } else { raw }
    };
    let travel = track_cells - thumb_len;
    let max_pos = content_len - 1;
    let sel = if selected < max_pos { selected } else { max_pos };
    let thumb_top: usize = if max_pos == 0 {
        0
    } else {
        (sel * travel + max_pos / 2) / max_pos
    };
    (thumb_len, thumb_top)
}

/// The thumb always fits the track: its length is between 1 and the track
/// (and depends only on the list and viewport sizes), it never runs past the
/// track's end, it sits at the top for the first item and flush against the
/// bottom for the last, and it moves down, never up, as the cursor moves
/// down.
pub proof fn lemma_thumb_fits(track_cells: nat, content_len: nat, visible_items: nat, selected: nat, other: nat)
    requires
        content_len >= 1,
        track_cells >= 1,
    ensures
        1 <= thumb_len_of(track_cells, content_len, visible_items) <= track_cells,
        thumb_top_of(track_cells, content_len, visible_items, selected)
            + thumb_len_of(track_cells, content_len, visible_items) <= track_cells,
        thumb_top_of(track_cells, content_len, visible_items, 0) == 0,
        selected + 1 >= content_len ==> thumb_top_of(track_cells, content_len, visible_items, selected)
            == track_cells - thumb_len_of(track_cells, content_len, visible_items),
        content_len <= (if visible_items == 0 { 1 } else { visible_items }) ==> thumb_len_of(
            track_cells,
            content_len,
            visible_items,
        ) == track_cells,
        selected <= other ==> thumb_top_of(track_cells, content_len, visible_items, selected)
            <= thumb_top_of(track_cells, content_len, visible_items, other),
{
    let len = thumb_len_of(track_cells, content_len, visible_items);
    let travel = (track_cells - len) as nat;
    let max_pos = (content_len - 1) as nat;
    let sel = if selected < max_pos { selected } else { max_pos };
    if max_pos > 0 {
        assert((sel * travel + max_pos / 2) / max_pos <= travel) by (nonlinear_arith)
            requires sel <= max_pos, max_pos > 0;
        if selected + 1 >= content_len {
            assert((max_pos * travel + max_pos / 2) / max_pos == travel) by (nonlinear_arith)
                requires max_pos > 0;
        }
        assert((0 * travel + max_pos / 2) / max_pos == 0) by (nonlinear_arith)
            requires max_pos > 0;
        let sel2 = if other < max_pos { other } else { max_pos };
        if selected <= other {
            assert((sel * travel + max_pos / 2) / max_pos <= (sel2 * travel + max_pos / 2) / max_pos)
                by (nonlinear_arith)
                requires sel <= sel2, max_pos > 0;
        }
    }
}

} // verus!

verus! {

/// One row of the details overlay.
pub enum DetailRow<'a> {
    /// `label    value`.
    Single { label: &'a str, value: String },
    /// Two label/value columns side by side.
    Pair { label_a: &'a str, value_a: String, label_b: &'a str, value_b: String },
    /// Like `Single`, with the value wrapping onto further lines.
    Wrapped { label: &'a str, value: String },
    /// A label and a small sparkline of `data`.
    Sparkline { label: &'a str, data: &'a [u64] },
    /// A section divider.
    SectionHeader { title: &'a str },
    /// Vertical breathing room.
    Blank,
}

/// Width of the label column of the details overlay.
pub const LABEL_WIDTH: u16 = 12;

/// One word of `wlen` characters laid out after `(lines, col)`: a word longer
/// than the width breaks at character boundaries from the current column on,
/// a shorter one goes on the current line after a space if it fits, else
/// starts a new line.
pub open spec fn count_step(st: (nat, nat), wlen: nat, w: nat) -> (nat, nat) {
    let lines = st.0;
    let col = st.1;
    if wlen > w {
        let avail: nat = if w >= col { (w - col) as nat } else { 0 };
        let rem: nat = if wlen >= avail { (wlen - avail) as nat } else { 0 };
        (lines + rem / w + (if rem % w > 0 { 1nat } else { 0nat }), rem % w)
    } else {
        let sep: nat = if col == 0 { 0 } else { 1 };
        if col + sep + wlen <= w {
            (lines, col + sep + wlen)
        } else {
            (lines + 1, wlen)
        }
    }
}

/// `(lines, column)` after laying out the words `ws` at width `w`.
pub open spec fn count_layout(ws: Seq<Seq<char>>, w: nat) -> (nat, nat)
    decreases ws.len(),
{
    if ws.len() == 0 {
        (1, 0)
    } else {
        let wl = ws.last().len();
        count_step(count_layout(ws.drop_last(), w), if wl == 0 { 1 } else { wl }, w)
    }
}

/// Number of lines `value` occupies when word-wrapped at `width` (at least
/// one; the count wraps like a `u16`, with 0 read as 1).
pub open spec fn wrapped_lines(value: Seq<char>, width: nat) -> nat {
    if width == 0 {
        1
    } else {
        let l = count_layout(words(value), width).0 % 0x1_0000;
        if l == 0 { 1 } else { l }
    }
}

proof fn lemma_count_layout_bound(ws: Seq<Seq<char>>, w: nat)
    requires
        w >= 1,
        forall|i: int| 0 <= i < ws.len() ==> #[trigger] ws[i].len() >= 1,
    ensures
        count_layout(ws, w).1 <= w,
        count_layout(ws, w).0 <= 1 + total_len(ws),
    decreases ws.len(),
{
    if ws.len() > 0 {
        let d = ws.drop_last();
        lemma_count_layout_bound(d, w);
        let st = count_layout(d, w);
        let wl = ws.last().len();
        assert(wl >= 1);
        if wl > w {
            let avail: nat = if w >= st.1 { (w - st.1) as nat } else { 0 };
            let rem: nat = if wl >= avail { (wl - avail) as nat } else { 0 };
            assert(rem / w + (if rem % w > 0 { 1nat } else { 0nat }) <= wl) by (nonlinear_arith)
                requires rem <= wl, w >= 1, wl >= 1;
            assert(rem % w < w) by (nonlinear_arith)
                requires w >= 1;
        }
    }
}

/// How many cells tall `value` is once word-wrapped at `width`: words wrap at
/// spaces, a word longer than the width breaks between characters.
pub fn wrapped_line_count(value: &str, width: u16) -> (r: u16)
    requires
        value@.len() < usize::MAX,
    ensures
        r == wrapped_lines(value@, width as nat),
        r >= 1,
{
    if width == 0 {
        return 1;
    }
    let w = width as usize;
    let ws = split_words(value);
    proof {
        lemma_words_shape(value@);
    }
    let ghost all = words(value@);
    let mut lines: usize = 1;
    let mut col: usize = 0;
    let mut k: usize = 0;
    while k < ws.len()
        invariant
            w == width,
            w >= 1,
            ws@.len() == all.len(),
            forall|i: int| 0 <= i < ws@.len() ==> #[trigger] ws@[i]@ == all[i],
            forall|i: int| 0 <= i < all.len() ==> #[trigger] all[i].len() >= 1,
            total_len(all) <= value@.len(),
            value@.len() < usize::MAX,
            k <= ws.len(),
            (lines as nat, col as nat) == count_layout(all.take(k as int), w as nat),
            lines <= 1 + total_len(all.take(k as int)),
            col <= w,
            total_len(all.take(k as int)) <= total_len(all),
        decreases ws.len() - k,
    {
        let ghost pre = all.take(k as int);
        let ghost nxt = all.take(k + 1);
        proof {
            assert(nxt.drop_last() =~= pre);
            assert(nxt.last() == all[k as int]);
            lemma_count_layout_bound(nxt, w as nat);
            assert forall|i: int| 0 <= i < nxt.len() implies #[trigger] nxt[i].len() >= 1 by {
                assert(nxt[i] == all[i]);
            }
            lemma_total_len_prefix(all, k + 1);
        }
        let wl0 = ws[k].len();
        let wlen: usize = if wl0 == 0 { 1 } else { wl0 };
        if wlen > w {
            let avail: usize = if w >= col { w - col } else { 0 };
            let rem: usize = if wlen >= avail { wlen - avail } else { 0 };
            lines = lines + rem / w + (if rem % w > 0 { 1 } else { 0 });
            col = rem % w;
        } else {
            let sep: usize = if col == 0 { 0 } else { 1 };
            if col + sep + wlen <= w {
                col = col + sep + wlen;
            } else {
                lines = lines + 1;
                col = wlen;
            }
        }
        k = k + 1;
    }
    proof {
        assert(all.take(ws.len() as int) =~= all);
    }
    let l = (lines % 0x1_0000) as u16;
    if l == 0 { 1 } else { l }
}

proof fn lemma_total_len_prefix(ws: Seq<Seq<char>>, k: int)
    requires
        0 <= k <= ws.len(),
    ensures
        total_len(ws.take(k)) <= total_len(ws),
    decreases ws.len(),
{
    if k < ws.len() {
        assert(ws.drop_last().take(k) =~= ws.take(k));
        lemma_total_len_prefix(ws.drop_last(), k);
    } else {
        assert(ws.take(k) =~= ws);
    }
}

/// Cells a details row needs at the given total width: wrapped values grow
/// to their line count beside the label column, sparklines take two rows,
/// everything else one.
pub fn row_height(row: &DetailRow<'_>, total_width: u16) -> (r: u16)
    requires
        row is Wrapped ==> row->Wrapped_value@.len() < usize::MAX,
    ensures
        r == (match row {
            DetailRow::Wrapped { value, .. } => {
                let w: nat = if total_width >= LABEL_WIDTH + 4 { (total_width - (LABEL_WIDTH + 4)) as nat } else { 0 };
                wrapped_lines(value@, if w == 0 { 1 } else { w })
            },
            DetailRow::Sparkline { .. } => 2,
            _ => 1,
        }),
{
    match row {
        DetailRow::Wrapped { value, .. } => {
            let label_w: u16 = LABEL_WIDTH + 4;
            let w0: u16 = if total_width >= label_w { total_width - label_w } else { 0 };
            let value_w: u16 = if w0 == 0 { 1 } else { w0 };
            wrapped_line_count(value.as_str(), value_w)
        },
        DetailRow::Sparkline { .. } => 2,
        _ => 1,
    }
}

} // verus!

verus! {

/// `word` cut into consecutive pieces of `w` characters, the last piece
/// holding the rest.
pub open spec fn hard_split(word: Seq<char>, w: nat) -> Seq<Seq<char>>
    decreases word.len(),
{
    if w == 0 || word.len() <= w {
        seq![word]
    } else {
        seq![word.take(w as int)] + hard_split(word.skip(w as int), w)
    }
}

/// Lines so far and the line being filled, after laying out one more word:
/// a word longer than the width is split across lines of its own, others
/// join the current line after a space when they fit.
pub open spec fn wrap_step(st: (Seq<Seq<char>>, Seq<char>), word: Seq<char>, w: nat) -> (Seq<Seq<char>>, Seq<char>) {
    let lines = st.0;
    let cur = st.1;
    if cur.len() == 0 {
        if word.len() > w {
            (lines + hard_split(word, w), cur)
        } else {
            (lines, word)
        }
    } else if cur.len() + 1 + word.len() <= w {
        (lines, cur + seq![' '] + word)
    } else if word.len() > w {
        (lines.push(cur) + hard_split(word, w), Seq::empty())
    } else {
        (lines.push(cur), word)
    }
}

pub open spec fn wrap_layout(ws: Seq<Seq<char>>, w: nat) -> (Seq<Seq<char>>, Seq<char>)
    decreases ws.len(),
{
    if ws.len() == 0 {
        (Seq::empty(), Seq::empty())
    } else {
        wrap_step(wrap_layout(ws.drop_last(), w), ws.last(), w)
    }
}

/// The lines of `text` greedily word-wrapped at `width` (the text itself at
/// width 0); always at least one, possibly empty, line.
pub open spec fn wrapped_text(text: Seq<char>, width: nat) -> Seq<Seq<char>> {
    if width == 0 {
        seq![text]
    } else {
        let st = wrap_layout(words(text), width);
        let lines = if st.1.len() > 0 { st.0.push(st.1) } else { st.0 };
        if lines.len() == 0 { seq![Seq::empty()] } else { lines }
    }
}

pub open spec fn string_views(v: Seq<String>) -> Seq<Seq<char>> {
    v.map_values(|s: String| s@)
}

proof fn lemma_views_push(v: Seq<String>, s: String)
    ensures
        string_views(v.push(s)) == string_views(v).push(s@),
{
    assert(string_views(v.push(s)) =~= string_views(v).push(s@));
}

/// Append `word` cut into `width`-sized pieces (the last holding the rest).
fn push_hard_split(lines: &mut Vec<String>, word: &Vec<char>, width: usize)
    requires
        width >= 1,
        word@.len() >= 1,
    ensures
        string_views(final(lines)@) == string_views(old(lines)@) + hard_split(word@, width as nat),
{
    let ghost start = string_views(lines@);
    let mut chunk = String::new();
    let mut len: usize = 0;
    let mut i: usize = 0;
    proof {
        assert(word@.skip(0) =~= word@);
    }
    while i < word.len()
        invariant
            width >= 1,
            word@.len() >= 1,
            i <= word.len(),
            len == chunk@.len(),
            len <= width,
            i > 0 ==> len >= 1,
            i == 0 ==> len == 0,
            len <= i,
            chunk@ == word@.subrange(i - len, i as int),
            string_views(lines@) + hard_split(word@.skip(i - len), width as nat)
                == start + hard_split(word@, width as nat),
        decreases word.len() - i,
    {
        if len == width {
            proof {
                let rest = word@.skip(i - len);
                assert(rest.len() > width);
                assert(rest.take(width as int) =~= chunk@);
                assert(rest.skip(width as int) =~= word@.skip(i as int));
                lemma_views_push(lines@, chunk);
                assert(seq![chunk@] + hard_split(word@.skip(i as int), width as nat)
                    == hard_split(rest, width as nat));
                assert(string_views(lines@).push(chunk@) + hard_split(word@.skip(i as int), width as nat)
                    =~= string_views(lines@) + (seq![chunk@] + hard_split(word@.skip(i as int), width as nat)));
            }
            lines.push(chunk);
            chunk = String::new();
            len = 0;
        }
        chunk.push(word[i]);
        proof {
            assert(word@.subrange(i + 1 - (len + 1), i + 1) =~= chunk@);
        }
        len = len + 1;
        i = i + 1;
    }
    proof {
        let rest = word@.skip(i - len);
        assert(rest =~= chunk@);
        assert(hard_split(rest, width as nat) == seq![chunk@]);
        lemma_views_push(lines@, chunk);
        assert(string_views(lines@) + seq![chunk@] =~= string_views(lines@).push(chunk@));
    }
    lines.push(chunk);
}

} // verus!

verus! {

/// Greedy word-wrap of a command line at `width` characters: breaks at
/// whitespace, hard-splits a token longer than the width, and always returns
/// at least one (possibly empty) line.
pub fn wrap_cmd(text: &str, width: usize) -> (r: Vec<String>)
    ensures
        string_views(r@) == wrapped_text(text@, width as nat),
{
    if width == 0 {
        let mut v: Vec<String> = Vec::new();
        let s = String::from_str(text);
        v.push(s);
        proof {
            lemma_views_push(Seq::empty(), s);
            assert(Seq::<String>::empty().push(s) =~= v@);
        }
        return v;
    }
    let ws = split_words(text);
    proof {
        lemma_words_shape(text@);
    }
    let ghost all = words(text@);
    let mut lines: Vec<String> = Vec::new();
    let mut current = String::new();
    let mut current_len: usize = 0;
    let mut k: usize = 0;
    proof {
        assert(string_views(lines@) =~= Seq::<Seq<char>>::empty());
        assert(all.take(0) =~= Seq::<Seq<char>>::empty());
    }
    while k < ws.len()
        invariant
            width >= 1,
            ws@.len() == all.len(),
            forall|i: int| 0 <= i < ws@.len() ==> #[trigger] ws@[i]@ == all[i],
            forall|i: int| 0 <= i < all.len() ==> #[trigger] all[i].len() >= 1,
            k <= ws.len(),
            (string_views(lines@), current@) == wrap_layout(all.take(k as int), width as nat),
            current_len == current@.len(),
            current_len <= width,
        decreases ws.len() - k,
    {
        let ghost pre = all.take(k as int);
        let ghost nxt = all.take(k + 1);
        proof {
            assert(nxt.drop_last() =~= pre);
            assert(nxt.last() == all[k as int]);
        }
        let word = &ws[k];
        let wlen = word.len();
        if current_len == 0 {
            if wlen > width {
                push_hard_split(&mut lines, word, width);
            } else {
                crate::text::push_chars(&mut current, word);
                current_len = wlen;
            }
        } else if current_len < width && wlen <= width - current_len - 1 {
            current.push(' ');
            crate::text::push_chars(&mut current, word);
            current_len = current_len + 1 + wlen;
        } else {
            let ghost cur = current@;
            proof {
                lemma_views_push(lines@, current);
            }
            lines.push(current);
            current = String::new();
            current_len = 0;
            if wlen > width {
                push_hard_split(&mut lines, word, width);
            } else {
                crate::text::push_chars(&mut current, word);
                current_len = wlen;
            }
        }
        proof {
            assert(current@ =~= wrap_layout(nxt, width as nat).1);
        }
        k = k + 1;
    }
    proof {
        assert(all.take(ws.len() as int) =~= all);
    }
    if current_len > 0 {
        proof {
            lemma_views_push(lines@, current);
        }
        lines.push(current);
    }
    if lines.len() == 0 {
        let e = String::new();
        proof {
            lemma_views_push(lines@, e);
            assert(seq![Seq::<char>::empty()] =~= string_views(lines@).push(e@));
        }
        lines.push(e);
    }
    lines
}

proof fn lemma_hard_split_fits(word: Seq<char>, w: nat)
    requires
        w >= 1,
    ensures
        forall|i: int| 0 <= i < hard_split(word, w).len() ==> #[trigger] hard_split(word, w)[i].len() <= w
            || (hard_split(word, w).len() == 1 && word.len() <= w),
        forall|i: int| 0 <= i < hard_split(word, w).len() ==> #[trigger] hard_split(word, w)[i].len() <= w,
    decreases word.len(),
{
    if word.len() > w {
        lemma_hard_split_fits(word.skip(w as int), w);
        let t = hard_split(word.skip(w as int), w);
        assert forall|i: int| 0 <= i < hard_split(word, w).len() implies #[trigger] hard_split(word, w)[i].len() <= w by {
            if i > 0 {
                assert(hard_split(word, w)[i] == t[i - 1]);
            }
        }
    }
}

proof fn lemma_wrap_layout_fits(ws: Seq<Seq<char>>, w: nat)
    requires
        w >= 1,
    ensures
        forall|i: int| 0 <= i < wrap_layout(ws, w).0.len() ==> #[trigger] wrap_layout(ws, w).0[i].len() <= w,
        wrap_layout(ws, w).1.len() <= w,
    decreases ws.len(),
{
    if ws.len() > 0 {
        lemma_wrap_layout_fits(ws.drop_last(), w);
        lemma_hard_split_fits(ws.last(), w);
        let st = wrap_layout(ws.drop_last(), w);
        let r = wrap_layout(ws, w);
        let hs = hard_split(ws.last(), w);
        assert forall|i: int| 0 <= i < r.0.len() implies #[trigger] r.0[i].len() <= w by {
            if i < st.0.len() {
                assert(r.0[i] == st.0[i]);
            } else if i == st.0.len() && st.1.len() > 0 && r.0.len() > st.0.len() && !(st.1.len() + 1 + ws.last().len() <= w) {
                assert(r.0[i] == st.1);
            } else if st.1.len() == 0 {
                assert(r.0[i] == hs[i - st.0.len()]);
            } else {
                assert(r.0[i] == hs[i - st.0.len() - 1]);
            }
        }
    }
}

/// No wrapped line is wider than the width (for a positive width).
pub proof fn lemma_wrapped_text_fits(text: Seq<char>, width: nat)
    requires
        width >= 1,
    ensures
        wrapped_text(text, width).len() >= 1,
        forall|i: int| 0 <= i < wrapped_text(text, width).len() ==> #[trigger] wrapped_text(text, width)[i].len() <= width,
{
    lemma_wrap_layout_fits(words(text), width);
    let st = wrap_layout(words(text), width);
    let lines = if st.1.len() > 0 { st.0.push(st.1) } else { st.0 };
    assert forall|i: int| 0 <= i < lines.len() implies #[trigger] lines[i].len() <= width by {
        if i < st.0.len() {
            assert(lines[i] == st.0[i]);
        }
    }
}

/// Widest a half of a details pair row may grow.
pub const PAIR_HALF_MAX: u16 = 56;

/// Widest the details overlay's sparkline may grow.
pub const SPARKLINE_MAX: u16 = 50;

/// Width of each half of a details pair row: half the row less the
/// divider, kept between the label column plus padding and `PAIR_HALF_MAX`.
pub fn pair_half_width(area_width: u16) -> (r: u16)
    ensures
        r == ({
            let half: int = (if area_width >= 1 { area_width - 1 } else { 0 }) / 2;
            if half < LABEL_WIDTH + 4 { LABEL_WIDTH + 4 } else if half > PAIR_HALF_MAX { PAIR_HALF_MAX as int } else { half }
        }),
{
    let half = area_width.saturating_sub(1) / 2;
    if half < LABEL_WIDTH + 4 {
        LABEL_WIDTH + 4
    } else if half > PAIR_HALF_MAX {
        PAIR_HALF_MAX
    } else {
        half
    }
}

/// Width of the details overlay's sparkline: what the label column leaves,
/// at most `SPARKLINE_MAX`.
pub fn sparkline_width(area_width: u16) -> (r: u16)
    ensures
        r == ({
            let rest: int = if area_width >= LABEL_WIDTH + 4 { area_width - (LABEL_WIDTH + 4) } else { 0 };
            if rest < SPARKLINE_MAX { rest } else { SPARKLINE_MAX as int }
        }),
{
    let rest = area_width.saturating_sub(LABEL_WIDTH + 4);
    if rest < SPARKLINE_MAX { rest } else { SPARKLINE_MAX }
}

/// Spaces between a details label and its value: the label padded to the
/// label column, plus two.
pub fn label_gap(label: &str) -> (r: usize)
    ensures
        r == (if label@.len() < LABEL_WIDTH { LABEL_WIDTH - label@.len() } else { 0 }) + 2,
{
    let n = label.unicode_len();
    let w = LABEL_WIDTH as usize;
    if n < w { w - n + 2 } else { 2 }
}

/// The sparkline of `samples` (oldest first) at `width` columns: the newest
/// `width` samples, oldest first, after as many blank columns as are left.
pub open spec fn sparkline_window(samples: Seq<u64>, width: nat) -> (nat, Seq<u64>) {
    let k: nat = if samples.len() < width { samples.len() } else { width };
    ((width - k) as nat, samples.skip(samples.len() - k))
}

/// The blank columns and the samples of a sparkline (see
/// `sparkline_window`).
pub fn sparkline_data(samples: &[u64], width: usize) -> (r: (usize, Vec<u64>))
    ensures
        (r.0 as nat, r.1@) == sparkline_window(samples@, width as nat),
{
    let n = samples.len();
    let k = if n < width { n } else { width };
    let start = n - k;
    let mut out: Vec<u64> = Vec::new();
    let mut i: usize = start;
    while i < n
        invariant
            start <= i <= n,
            n == samples@.len(),
            out@ == samples@.subrange(start as int, i as int),
        decreases n - i,
    {
        proof {
            assert(samples@.subrange(start as int, i + 1) =~= samples@.subrange(start as int, i as int).push(samples@[i as int]));
        }
        out.push(samples[i]);
        i = i + 1;
    }
    proof {
        assert(samples@.skip(start as int) =~= samples@.subrange(start as int, n as int));
    }
    (width - k, out)
}

/// Where a list's scrollbar goes inside a bordered area of `area_height`
/// rows with `header_rows` header rows: `(track_cells, thumb_len,
/// thumb_top)`, or `None` when there is no track or no content to show.
pub fn scrollbar_plan(area_height: u16, header_rows: u16, content_len: usize, visible_items: usize, selected: usize)
    -> (r: Option<(usize, usize, usize)>)
    requires
        ({
            let track: int = if area_height >= 2 + header_rows { area_height - 2 - header_rows } else { 0 };
            track > 0 && content_len > 0 ==> thumb_arith_fits(
                track as nat,
                content_len as nat,
                visible_items as nat,
                selected as nat,
            )
        }),
    ensures
        ({
            let track: int = if area_height >= 2 + header_rows { area_height - 2 - header_rows } else { 0 };
            match r {
                None => track == 0 || content_len == 0,
                Some((t, l, top)) => track > 0 && content_len > 0 && t == track && l == thumb_len_of(
                    t as nat,
                    content_len as nat,
                    visible_items as nat,
                ) && top == thumb_top_of(t as nat, content_len as nat, visible_items as nat, selected as nat),
            }
        }),
{
    let track = area_height.saturating_sub(2).saturating_sub(header_rows) as usize;
    if track == 0 || content_len == 0 {
        return None;
    }
    let (len, top) = thumb_geometry(track, content_len, visible_items, selected);
    Some((track, len, top))
}

} // verus!
