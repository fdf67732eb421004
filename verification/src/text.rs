//! Character-level building blocks for the screens' text: decimal digits,
//! Unicode whitespace, and appending to a `String`.

use vstd::prelude::*;
use vstd::string::*;

verus! {

/// `String::push` appends one character at the end of the string (std
/// documents it as such); vstd gives it no specification.
pub assume_specification[ String::push ](string: &mut String, ch: char)
    ensures
        final(string)@ == old(string)@.push(ch),
;

/// The character of a decimal digit `d` (`0..=9`).
pub open spec fn digit_char(d: nat) -> char {
    if d == 0 { '0' }
    else if d == 1 { '1' }
    else if d == 2 { '2' }
    else if d == 3 { '3' }
    else if d == 4 { '4' }
    else if d == 5 { '5' }
    else if d == 6 { '6' }
    else if d == 7 { '7' }
    else if d == 8 { '8' }
    else { '9' }
}

/// Whether `c` is one of the ten decimal digit characters.
pub open spec fn is_digit_char(c: char) -> bool {
    c == '0' || c == '1' || c == '2' || c == '3' || c == '4' || c == '5' || c == '6'
        || c == '7' || c == '8' || c == '9'
}

/// The decimal rendering of `n`, most significant digit first, no leading
/// zeros (`0` renders as `"0"`).
pub open spec fn dec(n: nat) -> Seq<char>
    decreases n,
{
    if n < 10 {
        seq![digit_char(n)]
    } else {
        dec(n / 10).push(digit_char(n % 10))
    }
}

/// `dec(n)` is never empty and is made of digits only.
pub proof fn lemma_dec_digits(n: nat)
    ensures
        dec(n).len() >= 1,
        forall|i: int| 0 <= i < dec(n).len() ==> is_digit_char(#[trigger] dec(n)[i]),
        n < 10 <==> dec(n).len() == 1,
    decreases n,
{
    if n >= 10 {
        lemma_dec_digits(n / 10);
    }
}

/// Exactly two digits: `n` zero-padded on the left (`7` renders as `"07"`).
pub open spec fn two_digits(n: nat) -> Seq<char>
    recommends
        n < 100,
{
    seq![digit_char(n / 10), digit_char(n % 10)]
}

pub fn digit(d: u64) -> (c: char)
    requires
        d < 10,
    ensures
        c == digit_char(d as nat),
{
    if d == 0 { '0' }
    else if d == 1 { '1' }
    else if d == 2 { '2' }
    else if d == 3 { '3' }
    else if d == 4 { '4' }
    else if d == 5 { '5' }
    else if d == 6 { '6' }
    else if d == 7 { '7' }
    else if d == 8 { '8' }
    else { '9' }
}

/// Append every character of `chars` to `out`, in order.
pub fn push_chars(out: &mut String, chars: &Vec<char>)
    ensures
        final(out)@ == old(out)@ + chars@,
{
    let ghost start = out@;
    let mut i: usize = 0;
    while i < chars.len()
        invariant
            i <= chars.len(),
            out@ == start + chars@.take(i as int),
        decreases chars.len() - i,
    {
        proof {
            assert(chars@.take(i + 1) =~= chars@.take(i as int).push(chars@[i as int]));
        }
        out.push(chars[i]);
        i = i + 1;
    }
    proof {
        assert(chars@.take(chars.len() as int) =~= chars@);
    }
}

/// The characters of `s`, in order.
pub fn chars_of(s: &str) -> (v: Vec<char>)
    ensures
        v@ == s@,
{
    let n = s.unicode_len();
    let mut v: Vec<char> = Vec::new();
    let mut i: usize = 0;
    while i < n
        invariant
            n == s@.len(),
            i <= n,
            v@ == s@.take(i as int),
        decreases n - i,
    {
        let c = s.get_char(i);
        proof {
            assert(s@.take(i + 1) =~= s@.take(i as int).push(c));
        }
        v.push(c);
        i = i + 1;
    }
    proof {
        assert(s@.take(n as int) =~= s@);
    }
    v
}

/// Append the decimal rendering of `n` to `out`.
pub fn push_decimal(out: &mut String, n: u64)
    ensures
        final(out)@ == old(out)@ + dec(n as nat),
{
    push_decimal_wide(out, n as u128);
}

/// Append the characters of `s`.
pub fn push_str_text(out: &mut String, s: &str)
    ensures
        final(out)@ == old(out)@ + s@,
{
    let cs = chars_of(s);
    push_chars(out, &cs);
}

/// Append the decimal digits of a 128-bit number.
pub fn push_decimal_wide(out: &mut String, n: u128)
    ensures
        final(out)@ == old(out)@ + dec(n as nat),
{
    let mut m: u128 = n;
    let mut low: Vec<char> = Vec::new();
    while m >= 10
        invariant
            dec(n as nat) == dec(m as nat) + low@.reverse(),
        decreases m,
    {
        let d = (m % 10) as u64;
        let c = digit(d);
        proof {
            assert(low@.push(c).reverse() =~= seq![c] + low@.reverse());
        }
        low.push(c);
        m = m / 10;
    }
    let ghost start = out@;
    out.push(digit(m as u64));
    let mut i: usize = low.len();
    while i > 0
        invariant
            i <= low.len(),
            out@ == start + seq![digit_char(m as nat)] + low@.reverse().take(low.len() - i),
            dec(n as nat) == seq![digit_char(m as nat)] + low@.reverse(),
        decreases i,
    {
        i = i - 1;
        let c = low[i];
        proof {
            assert(low@.reverse().take(low.len() - i) =~= low@.reverse().take(low.len() - (i + 1)).push(c));
        }
        out.push(c);
    }
    proof {
        assert(low@.reverse().take(low.len() as int) =~= low@.reverse());
    }
}

/// Unicode `White_Space`, the property `char::is_whitespace` tests.
pub open spec fn is_space(c: char) -> bool {
    let u = c as u32;
    (9 <= u <= 13) || u == 32 || u == 0x85 || u == 0xA0 || u == 0x1680 || (0x2000 <= u <= 0x200A)
        || u == 0x2028 || u == 0x2029 || u == 0x202F || u == 0x205F || u == 0x3000
}

pub fn is_space_char(c: char) -> (r: bool)
    ensures
        r == is_space(c),
{
    let u = c as u32;
    (9 <= u && u <= 13) || u == 32 || u == 0x85 || u == 0xA0 || u == 0x1680 || (0x2000 <= u && u
        <= 0x200A) || u == 0x2028 || u == 0x2029 || u == 0x202F || u == 0x205F || u == 0x3000
}

/// The words of `s`: its maximal runs of non-whitespace characters, in
/// order (what `str::split_whitespace` yields).
pub open spec fn words(s: Seq<char>) -> Seq<Seq<char>>
    decreases s.len(),
{
    if s.len() == 0 {
        Seq::empty()
    } else {
        let w = words(s.drop_last());
        let c = s.last();
        if is_space(c) {
            w
        } else if s.len() >= 2 && !is_space(s[s.len() - 2]) {
            w.update(w.len() - 1, w.last().push(c))
        } else {
            w.push(seq![c])
        }
    }
}

/// Every word is non-empty and the words are no longer, in total, than the
/// text; a text ending in a non-space character has at least one word.
pub proof fn lemma_words_shape(s: Seq<char>)
    ensures
        forall|i: int| 0 <= i < words(s).len() ==> #[trigger] words(s)[i].len() >= 1,
        total_len(words(s)) <= s.len(),
        s.len() > 0 && !is_space(s.last()) ==> words(s).len() >= 1,
    decreases s.len(),
{
    if s.len() > 0 {
        let d = s.drop_last();
        lemma_words_shape(d);
        let w = words(d);
        let c = s.last();
        if !is_space(c) {
            if s.len() >= 2 && !is_space(s[s.len() - 2]) {
                assert(d.last() == s[s.len() - 2]);
                let w2 = w.update(w.len() - 1, w.last().push(c));
                lemma_total_len_update(w, w.len() - 1, w.last().push(c));
            } else {
                lemma_total_len_push(w, seq![c]);
            }
        }
    }
}

/// Sum of the lengths of `ws`.
pub open spec fn total_len(ws: Seq<Seq<char>>) -> nat
    decreases ws.len(),
{
    if ws.len() == 0 {
        0
    } else {
        total_len(ws.drop_last()) + ws.last().len()
    }
}

proof fn lemma_total_len_push(ws: Seq<Seq<char>>, x: Seq<char>)
    ensures
        total_len(ws.push(x)) == total_len(ws) + x.len(),
{
    assert(ws.push(x).drop_last() =~= ws);
}

proof fn lemma_total_len_update(ws: Seq<Seq<char>>, i: int, x: Seq<char>)
    requires
        0 <= i < ws.len(),
    ensures
        total_len(ws.update(i, x)) == total_len(ws) - ws[i].len() + x.len(),
    decreases ws.len(),
{
    if i == ws.len() - 1 {
        assert(ws.update(i, x).drop_last() =~= ws.drop_last());
    } else {
        lemma_total_len_update(ws.drop_last(), i, x);
        assert(ws.update(i, x).drop_last() =~= ws.drop_last().update(i, x));
    }
}

/// The words of `s` (see `words`), each as its characters.
pub fn split_words(s: &str) -> (r: Vec<Vec<char>>)
    ensures
        r@.len() == words(s@).len(),
        forall|i: int| 0 <= i < r@.len() ==> #[trigger] r@[i]@ == words(s@)[i],
{
    let cs = chars_of(s);
    let mut out: Vec<Vec<char>> = Vec::new();
    let mut i: usize = 0;
    while i < cs.len()
        invariant
            cs@ == s@,
            i <= cs.len(),
            out@.len() == words(s@.take(i as int)).len(),
            forall|k: int| 0 <= k < out@.len() ==> #[trigger] out@[k]@ == words(s@.take(i as int))[k],
        decreases cs.len() - i,
    {
        let c = cs[i];
        let ghost pre = s@.take(i as int);
        let ghost nxt = s@.take(i + 1);
        proof {
            assert(nxt.drop_last() =~= pre);
            assert(nxt.last() == c);
            lemma_words_shape(pre);
        }
        if is_space_char(c) {
        } else if i >= 1 && !is_space_char(cs[i - 1]) {
            proof {
                assert(nxt[nxt.len() - 2] == cs@[i - 1]);
                assert(pre.last() == cs@[i - 1]);
            }
            let ghost before = out@;
            let last = out.len() - 1;
            let mut w = out.remove(last);
            w.push(c);
            out.push(w);
            proof {
                assert forall|k: int| 0 <= k < out@.len() implies #[trigger] out@[k]@ == words(nxt)[k] by {
                    if k < last {
                        assert(out@[k] == before.remove(last as int)[k]);
                    }
                }
            }
        } else {
            let mut w: Vec<char> = Vec::new();
            w.push(c);
            proof {
                assert(w@ =~= seq![c]);
            }
            out.push(w);
        }
        i = i + 1;
    }
    proof {
        assert(s@.take(cs.len() as int) =~= s@);
    }
    out
}

} // verus!
