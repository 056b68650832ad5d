//! Text as the panels see it: characters, words, cell widths and cuts.

use vstd::prelude::*;
use vstd::string::*;
use vstd::utf8::*;

verus! {

/// How many terminal cells a text takes when it is drawn.
pub uninterp spec fn text_width(text: Seq<char>) -> nat;

/// A character that every terminal draws in one cell.
pub open spec fn is_plain_cell(c: char) -> bool {
    ' ' <= c && c <= '~'
}

/// Text that holds nothing but one-cell characters.
pub open spec fn is_plain(text: Seq<char>) -> bool {
    forall|i: int| 0 <= i < text.len() ==> is_plain_cell(#[trigger] text[i])
}

/// The number of cells that `text` takes, as `ratatui::text::Span::width` counts them.
///
/// Believed of `ratatui`: the count depends on the text alone, no character
/// adds more than three cells, and printable ASCII takes one cell a character.
#[verifier::external_body]
pub(crate) fn display_width(text: &str) -> (width: usize)
    ensures
        width == text_width(text@),
        width <= 3 * text@.len(),
        is_plain(text@) ==> width == text@.len(),
{
    ratatui::text::Span::raw(text).width()
}

/// The width of `text`, capped at what a coordinate can hold.
pub fn display_width_u16(text: &str) -> (width: u16)
    ensures
        width == if text_width(text@) <= u16::MAX {
            text_width(text@) as int
        } else {
            u16::MAX as int
        },
{
    let width: usize = display_width(text);
    if width <= u16::MAX as usize {
        width as u16
    } else {
        u16::MAX
    }
}

/// The number of bytes that `text` takes in UTF-8.
pub open spec fn byte_len(text: Seq<char>) -> nat {
    encode_utf8(text).len()
}

pub proof fn lemma_encode_concat(a: Seq<char>, b: Seq<char>)
    ensures
        encode_utf8(a + b) == encode_utf8(a) + encode_utf8(b),
    decreases a.len(),
{
    if a.len() == 0 {
        assert(a + b =~= b);
        assert(encode_utf8(a) =~= Seq::<u8>::empty());
    } else {
        lemma_encode_concat(a.drop_first(), b);
        assert((a + b).drop_first() =~= a.drop_first() + b);
        assert(encode_utf8(a + b) =~= encode_utf8(a) + encode_utf8(b));
    }
}

pub proof fn lemma_encode_some(text: Seq<char>)
    requires
        text.len() > 0,
    ensures
        encode_utf8(text).len() > 0,
{
    char_is_scalar(text[0]);
}

pub proof fn lemma_encode_injective(a: Seq<char>, b: Seq<char>)
    requires
        encode_utf8(a) == encode_utf8(b),
    ensures
        a == b,
{
    encode_utf8_decode_utf8(a);
    encode_utf8_decode_utf8(b);
}

/// Whether two texts are the same.
pub fn str_eq(a: &str, b: &str) -> (same: bool)
    ensures
        same == (a@ == b@),
{
    let x: &[u8] = a.as_bytes();
    let y: &[u8] = b.as_bytes();
    if x.len() != y.len() {
        return false;
    }
    let mut i: usize = 0;
    while i < x.len()
        invariant
            i <= x@.len(),
            x@.len() == y@.len(),
            x@ == encode_utf8(a@),
            y@ == encode_utf8(b@),
            forall|j: int| 0 <= j < i ==> x@[j] == y@[j],
        decreases x@.len() - i,
    {
        if x[i] != y[i] {
            return false;
        }
        i = i + 1;
    }
    proof {
        assert(x@ =~= y@);
        lemma_encode_injective(a@, b@);
    }
    true
}

/// The characters of `text`.
pub fn str_chars(text: &str) -> (chars: Vec<char>)
    ensures
        chars@ == text@,
{
    let mut chars: Vec<char> = Vec::new();
    for c in it: text.chars()
        invariant
            chars@ == it.seq().take(it.index() as int),
            it.seq() == text@,
    {
        chars.push(c);
    }
    chars
}

/// The number of bytes of `text`.
pub fn str_byte_len(text: &str) -> (len: usize)
    ensures
        len == byte_len(text@),
{
    text.as_bytes().len()
}

/// A character with the Unicode property `White_Space`.
pub open spec fn is_white(c: char) -> bool {
    ||| '\u{9}' <= c && c <= '\u{d}'
    ||| c == ' '
    ||| c == '\u{85}'
    ||| c == '\u{a0}'
    ||| c == '\u{1680}'
    ||| '\u{2000}' <= c && c <= '\u{200a}'
    ||| c == '\u{2028}'
    ||| c == '\u{2029}'
    ||| c == '\u{202f}'
    ||| c == '\u{205f}'
    ||| c == '\u{3000}'
}

/// Whether `c` is white space.
pub fn char_is_white(c: char) -> (white: bool)
    ensures
        white == is_white(c),
{
    ('\u{9}' <= c && c <= '\u{d}') || c == ' ' || c == '\u{85}' || c == '\u{a0}' || c
        == '\u{1680}' || ('\u{2000}' <= c && c <= '\u{200a}') || c == '\u{2028}' || c
        == '\u{2029}' || c == '\u{202f}' || c == '\u{205f}' || c == '\u{3000}'
}

/// Text of nothing but white space.
pub open spec fn all_white(text: Seq<char>) -> bool {
    forall|i: int| 0 <= i < text.len() ==> is_white(#[trigger] text[i])
}

/// The length of the white space that `text` starts with.
pub open spec fn white_prefix(text: Seq<char>) -> nat
    decreases text.len(),
{
    if text.len() == 0 || !is_white(text[0]) {
        0
    } else {
        1 + white_prefix(text.drop_first())
    }
}

/// The length of the white space that `text` ends with.
pub open spec fn white_suffix(text: Seq<char>) -> nat
    decreases text.len(),
{
    if text.len() == 0 || !is_white(text.last()) {
        0
    } else {
        1 + white_suffix(text.drop_last())
    }
}

/// `text` without the white space at its start.
pub open spec fn trim_start(text: Seq<char>) -> Seq<char> {
    text.skip(white_prefix(text) as int)
}

/// `text` without the white space at its end.
pub open spec fn trim_end(text: Seq<char>) -> Seq<char> {
    text.take(text.len() - white_suffix(text))
}

/// `text` without the white space at its two ends.
pub open spec fn trim(text: Seq<char>) -> Seq<char> {
    trim_end(trim_start(text))
}

/// The white space at the start of a text reaches up to the first character
/// that is none.
pub proof fn lemma_white_prefix(text: Seq<char>, n: nat)
    requires
        n <= text.len(),
        forall|i: int| 0 <= i < n ==> is_white(text[i]),
        n < text.len() ==> !is_white(text[n as int]),
    ensures
        white_prefix(text) == n,
    decreases n,
{
    if n > 0 {
        let rest = text.drop_first();
        assert forall|i: int| 0 <= i < n - 1 implies is_white(rest[i]) by {
            assert(rest[i] == text[i + 1]);
        }
        lemma_white_prefix(rest, (n - 1) as nat);
    }
}

/// The white space at the end of a text reaches down to the last character
/// that is none.
pub proof fn lemma_white_suffix(text: Seq<char>, n: nat)
    requires
        n <= text.len(),
        forall|i: int| text.len() - n <= i < text.len() ==> is_white(text[i]),
        n < text.len() ==> !is_white(text[text.len() - n - 1]),
    ensures
        white_suffix(text) == n,
    decreases n,
{
    if n > 0 {
        lemma_white_suffix(text.drop_last(), (n - 1) as nat);
    }
}

/// What [`white_prefix`] counts is white, and it stops at a character that is not.
pub proof fn lemma_white_prefix_is(text: Seq<char>)
    ensures
        white_prefix(text) <= text.len(),
        forall|i: int| 0 <= i < white_prefix(text) ==> is_white(text[i]),
        white_prefix(text) < text.len() ==> !is_white(text[white_prefix(text) as int]),
    decreases text.len(),
{
    if text.len() > 0 && is_white(text[0]) {
        let rest = text.drop_first();
        lemma_white_prefix_is(rest);
        assert forall|i: int| 0 <= i < white_prefix(text) implies is_white(text[i]) by {
            if i > 0 {
                assert(text[i] == rest[i - 1]);
            }
        }
    }
}

/// What [`white_suffix`] counts is white, and it stops at a character that is not.
pub proof fn lemma_white_suffix_is(text: Seq<char>)
    ensures
        white_suffix(text) <= text.len(),
        forall|i: int| text.len() - white_suffix(text) <= i < text.len() ==> is_white(text[i]),
        white_suffix(text) < text.len() ==> !is_white(text[text.len() - white_suffix(text) - 1]),
    decreases text.len(),
{
    if text.len() > 0 && is_white(text.last()) {
        let rest = text.drop_last();
        lemma_white_suffix_is(rest);
        assert forall|i: int| text.len() - white_suffix(text) <= i < text.len() implies is_white(
            text[i],
        ) by {
            if i < text.len() - 1 {
                assert(text[i] == rest[i]);
            }
        }
    }
}

/// The length of the white space that starts at `from`.
pub fn white_run(chars: &Vec<char>, from: usize) -> (run: usize)
    requires
        from <= chars@.len(),
    ensures
        run == white_prefix(chars@.skip(from as int)),
        from + run <= chars@.len(),
{
    let mut i: usize = from;
    while i < chars.len() && char_is_white(chars[i])
        invariant
            from <= i <= chars@.len(),
            forall|j: int| from <= j < i ==> is_white(chars@[j]),
        decreases chars@.len() - i,
    {
        i = i + 1;
    }
    proof {
        let rest = chars@.skip(from as int);
        assert forall|j: int| 0 <= j < i - from implies is_white(rest[j]) by {
            assert(rest[j] == chars@[from + j]);
        }
        lemma_white_prefix(rest, (i - from) as nat);
    }
    i - from
}

/// `text` without the white space at its two ends.
pub fn str_trim(text: &str) -> (out: String)
    ensures
        out@ == trim(text@),
{
    let chars: Vec<char> = str_chars(text);
    let start: usize = white_run(&chars, 0);
    let ghost kept = trim_start(text@);
    assert(text@.skip(0) =~= text@);
    let mut end: usize = chars.len();
    while end > start && char_is_white(chars[end - 1])
        invariant
            start <= end <= chars@.len(),
            chars@ == text@,
            start == white_prefix(text@),
            kept == text@.skip(start as int),
            forall|j: int| end <= j < chars@.len() ==> is_white(chars@[j]),
        decreases end,
    {
        end = end - 1;
    }
    proof {
        let n = (chars@.len() - end) as nat;
        assert forall|i: int| kept.len() - n <= i < kept.len() implies is_white(kept[i]) by {
            assert(kept[i] == chars@[start + i]);
        }
        lemma_white_suffix(kept, n);
        assert(trim(text@) =~= text@.subrange(start as int, end as int));
    }
    text.substring_char(start, end).to_string()
}

/// Whether `text` holds the character `c`.
pub fn str_has_char(text: &str, c: char) -> (found: bool)
    ensures
        found == text@.contains(c),
{
    let chars: Vec<char> = str_chars(text);
    let mut i: usize = 0;
    while i < chars.len()
        invariant
            i <= chars@.len(),
            chars@ == text@,
            forall|j: int| 0 <= j < i ==> chars@[j] != c,
        decreases chars@.len() - i,
    {
        if chars[i] == c {
            assert(chars@[i as int] == c);
            return true;
        }
        i = i + 1;
    }
    false
}

/// Whether `part` stands in `text` at position `at`.
pub open spec fn stands_at(text: Seq<char>, part: Seq<char>, at: int) -> bool {
    0 <= at && at + part.len() <= text.len() && text.subrange(at, at + part.len()) == part
}

/// Whether `part` occurs in `text`.
pub open spec fn has_part(text: Seq<char>, part: Seq<char>) -> bool {
    exists|at: int| stands_at(text, part, at)
}

/// Whether `part` stands in `chars` at position `at`.
pub fn part_stands_at(chars: &Vec<char>, part: &Vec<char>, at: usize) -> (found: bool)
    ensures
        found == stands_at(chars@, part@, at as int),
{
    if at > chars.len() || chars.len() - at < part.len() {
        return false;
    }
    let mut i: usize = 0;
    while i < part.len()
        invariant
            i <= part.len(),
            at + part.len() <= chars.len(),
            forall|j: int| 0 <= j < i ==> chars@[at + j] == part@[j],
        decreases part@.len() - i,
    {
        if chars[at + i] != part[i] {
            assert(chars@.subrange(at as int, at + part@.len())[i as int] == chars@[at + i]);
            return false;
        }
        i = i + 1;
    }
    assert(chars@.subrange(at as int, at + part@.len()) =~= part@);
    true
}

/// Whether `part` occurs in `text`.
pub fn str_has_part(text: &str, part: &str) -> (found: bool)
    ensures
        found == has_part(text@, part@),
{
    let chars: Vec<char> = str_chars(text);
    let wanted: Vec<char> = str_chars(part);
    let mut at: usize = 0;
    while at < chars.len()
        invariant
            at <= chars@.len(),
            chars@ == text@,
            wanted@ == part@,
            forall|j: int| 0 <= j < at ==> !stands_at(text@, part@, j),
        decreases chars@.len() - at,
    {
        if part_stands_at(&chars, &wanted, at) {
            return true;
        }
        at = at + 1;
    }
    part_stands_at(&chars, &wanted, at)
}

/// The first position, from `from` on, at which `part` stands in `text`.
pub open spec fn part_from(text: Seq<char>, part: Seq<char>, from: int) -> Option<int>
    decreases text.len() + 1 - from,
{
    if from > text.len() {
        None
    } else if stands_at(text, part, from) {
        Some(from)
    } else {
        part_from(text, part, from + 1)
    }
}

/// The first position at which `part` stands in `text`.
pub fn str_find_part(text: &str, part: &str) -> (out: Option<usize>)
    ensures
        match out {
            Some(at) => part_from(text@, part@, 0) == Some(at as int) && stands_at(
                text@,
                part@,
                at as int,
            ),
            None => part_from(text@, part@, 0) is None,
        },
{
    let chars: Vec<char> = str_chars(text);
    let wanted: Vec<char> = str_chars(part);
    let mut at: usize = 0;
    while at < chars.len()
        invariant
            at <= chars@.len(),
            chars@ == text@,
            wanted@ == part@,
            part_from(text@, part@, 0) == part_from(text@, part@, at as int),
        decreases chars@.len() - at,
    {
        if part_stands_at(&chars, &wanted, at) {
            return Some(at);
        }
        at = at + 1;
    }
    if part_stands_at(&chars, &wanted, at) {
        Some(at)
    } else {
        assert(part_from(text@, part@, at + 1) is None);
        None
    }
}

/// The characters of `text` from `from` up to, not including, `to`.
pub fn str_cut(text: &str, from: usize, to: usize) -> (out: String)
    requires
        from <= to <= text@.len(),
    ensures
        out@ == text@.subrange(from as int, to as int),
{
    text.substring_char(from, to).to_string()
}

/// Whether one of `texts` is `text`.
pub open spec fn holds_text(texts: Seq<String>, text: Seq<char>) -> bool {
    exists|i: int| 0 <= i < texts.len() && (#[trigger] texts[i])@ == text
}

/// Whether one of `texts` is `text`.
pub fn any_is(texts: &Vec<String>, text: &str) -> (found: bool)
    ensures
        found == holds_text(texts@, text@),
{
    let mut i: usize = 0;
    while i < texts.len()
        invariant
            i <= texts@.len(),
            forall|j: int| 0 <= j < i ==> (#[trigger] texts@[j])@ != text@,
        decreases texts@.len() - i,
    {
        if str_eq(texts[i].as_str(), text) {
            assert(texts@[i as int]@ == text@);
            return true;
        }
        i = i + 1;
    }
    false
}

/// The character of the digit `d`.
pub open spec fn digit(d: nat) -> char {
    ('0' as u32 + d) as char
}

/// The decimal digits of `n`.
pub open spec fn dec(n: nat) -> Seq<char>
    decreases n,
{
    if n < 10 {
        seq![digit(n)]
    } else {
        dec(n / 10).push(digit(n % 10))
    }
}

/// The decimal digits of `n`, at least two of them.
pub open spec fn dec2(n: nat) -> Seq<char> {
    if n < 10 {
        seq!['0', digit(n)]
    } else {
        dec(n)
    }
}

/// The decimal form of `n` with its sign, padded with zeros to two places.
pub open spec fn signed_dec2(n: int) -> Seq<char> {
    if n < 0 {
        seq!['-'] + dec((-n) as nat)
    } else {
        dec2(n as nat)
    }
}

fn digit_str(d: u64) -> (out: &'static str)
    requires
        d < 10,
    ensures
        out@ == seq![digit(d as nat)],
{
    proof {
        reveal_strlit("0");
        reveal_strlit("1");
        reveal_strlit("2");
        reveal_strlit("3");
        reveal_strlit("4");
        reveal_strlit("5");
        reveal_strlit("6");
        reveal_strlit("7");
        reveal_strlit("8");
        reveal_strlit("9");
    }
    let out: &'static str = match d {
        0 => "0",
        1 => "1",
        2 => "2",
        3 => "3",
        4 => "4",
        5 => "5",
        6 => "6",
        7 => "7",
        8 => "8",
        _ => "9",
    };
    assert(out@ =~= seq![digit(d as nat)]);
    out
}

/// Appends the decimal digits of `n`.
pub fn push_dec(out: &mut String, n: u64)
    ensures
        final(out)@ == old(out)@ + dec(n as nat),
    decreases n,
{
    if n >= 10 {
        push_dec(out, n / 10);
    }
    out.append(digit_str(n % 10));
    assert(out@ =~= old(out)@ + dec(n as nat));
}

/// Appends the decimal digits of `n`, at least two of them.
pub fn push_dec2(out: &mut String, n: u64)
    ensures
        final(out)@ == old(out)@ + dec2(n as nat),
{
    if n < 10 {
        proof {
            reveal_strlit("0");
        }
        out.append("0");
    }
    push_dec(out, n);
    assert(out@ =~= old(out)@ + dec2(n as nat));
}

/// Appends the decimal form of `n` with its sign, padded with zeros to two places.
pub fn push_signed_dec2(out: &mut String, n: i32)
    ensures
        final(out)@ == old(out)@ + signed_dec2(n as int),
{
    if n < 0 {
        proof {
            reveal_strlit("-");
        }
        out.append("-");
        push_dec(out, (-(n as i64)) as u64);
        assert(out@ =~= old(out)@ + signed_dec2(n as int));
    } else {
        push_dec2(out, n as u64);
    }
}

/// A number of at most `k` decimal places has at most `k` digits, all of them plain.
pub proof fn lemma_dec_len(n: nat, k: nat)
    requires
        k >= 1,
        n < pow10(k),
    ensures
        1 <= dec(n).len() <= k,
        is_plain(dec(n)),
    decreases n,
{
    if n >= 10 {
        assert(k >= 2) by {
            if k == 1 {
                assert(pow10(1) == 10) by {
                    reveal_with_fuel(pow10, 3);
                }
            }
        }
        assert(n / 10 < pow10((k - 1) as nat));
        lemma_dec_len(n / 10, (k - 1) as nat);
    }
}

/// Ten to the power of `k`.
pub open spec fn pow10(k: nat) -> nat
    decreases k,
{
    if k == 0 {
        1
    } else {
        10 * pow10((k - 1) as nat)
    }
}

/// Every 64-bit number has at most twenty digits.
pub proof fn lemma_dec_u64(n: u64)
    ensures
        1 <= dec(n as nat).len() <= 20,
        is_plain(dec(n as nat)),
{
    assert(pow10(20) == 100_000_000_000_000_000_000) by {
        reveal_with_fuel(pow10, 21);
    }
    lemma_dec_len(n as nat, 20);
}

/// `n` copies of `text`, one after the other.
pub open spec fn repeated(text: Seq<char>, n: nat) -> Seq<char>
    decreases n,
{
    if n == 0 {
        Seq::empty()
    } else {
        repeated(text, (n - 1) as nat) + text
    }
}

/// Appends `n` copies of `text`.
pub fn push_repeated(out: &mut String, text: &str, n: usize)
    ensures
        final(out)@ == old(out)@ + repeated(text@, n as nat),
{
    let mut i: usize = 0;
    assert(out@ =~= old(out)@ + repeated(text@, 0));
    while i < n
        invariant
            i <= n,
            out@ == old(out)@ + repeated(text@, i as nat),
        decreases n - i,
    {
        out.append(text);
        i = i + 1;
        assert(out@ =~= old(out)@ + repeated(text@, i as nat));
    }
}

/// The sign that stands for what a cut left out.
pub open spec fn ellipsis() -> Seq<char> {
    seq!['\u{2026}']
}

/// The longest of the first `n` characters of `text` that, with the ellipsis
/// behind it, fits in `max` cells; nothing when not even the ellipsis fits.
pub open spec fn elided(text: Seq<char>, max: nat, n: nat) -> Seq<char>
    decreases n,
{
    if text_width(text.take(n as int) + ellipsis()) <= max {
        text.take(n as int) + ellipsis()
    } else if n == 0 {
        Seq::empty()
    } else {
        elided(text, max, (n - 1) as nat)
    }
}

/// `text` where it fits in `max` cells, else its longest start that fits with
/// an ellipsis behind it.
pub open spec fn truncated(text: Seq<char>, max: nat) -> Seq<char> {
    if text_width(text) <= max {
        text
    } else {
        elided(text, max, text.len())
    }
}

/// Cuts `text` at its end so that it takes at most `max` cells.
pub fn truncate_end(text: &str, max: usize) -> (out: String)
    ensures
        out@ == truncated(text@, max as nat),
        text_width(out@) <= max,
{
    if display_width(text) <= max {
        return text.to_string();
    }
    let mut n: usize = text.unicode_len();
    proof {
        reveal_strlit("…");
    }
    assert("…"@ =~= ellipsis());
    loop
        invariant
            n <= text@.len(),
            "…"@ == ellipsis(),
            text_width(text@) > max,
            truncated(text@, max as nat) == elided(text@, max as nat, n as nat),
        decreases n,
    {
        let mut candidate: String = str_cut(text, 0, n);
        candidate.append("…");
        assert(candidate@ =~= text@.take(n as int) + ellipsis());
        if display_width(candidate.as_str()) <= max {
            return candidate;
        }
        if n == 0 {
            let nothing: String = String::new();
            let width: usize = display_width(nothing.as_str());
            assert(width == 0);
            return nothing;
        }
        n = n - 1;
    }
}

proof fn lemma_elided(text: Seq<char>, max: nat, n: nat)
    requires
        n <= text.len(),
    ensures
        ({
            let out = elided(text, max, n);
            ||| exists|k: int|
                0 <= k <= n && out == #[trigger] text.take(k) + ellipsis() && text_width(out) <= max
                    && forall|m: int|
                    k < m <= n ==> text_width(#[trigger] text.take(m) + ellipsis()) > max
            ||| out.len() == 0 && forall|m: int|
                0 <= m <= n ==> text_width(#[trigger] text.take(m) + ellipsis()) > max
        }),
    decreases n,
{
    if text_width(text.take(n as int) + ellipsis()) <= max {
        assert(elided(text, max, n) == text.take(n as int) + ellipsis());
    } else if n > 0 {
        lemma_elided(text, max, (n - 1) as nat);
        let out = elided(text, max, n);
        if exists|k: int|
            0 <= k <= n - 1 && out == #[trigger] text.take(k) + ellipsis() && text_width(out)
                <= max && forall|m: int|
                k < m <= n - 1 ==> text_width(#[trigger] text.take(m) + ellipsis()) > max {
            let k = choose|k: int|
                0 <= k <= n - 1 && out == #[trigger] text.take(k) + ellipsis() && text_width(out)
                    <= max && forall|m: int|
                    k < m <= n - 1 ==> text_width(#[trigger] text.take(m) + ellipsis()) > max;
            assert(out == text.take(k) + ellipsis());
        }
    }
}

/// A text that fits is not cut. Of one that does not fit the longest start is
/// left that fits with an ellipsis behind it, and nothing at all where not even
/// the ellipsis fits.
pub proof fn law_a_cut_text_keeps_what_fits(text: Seq<char>, max: nat)
    ensures
        text_width(text) <= max ==> truncated(text, max) == text,
        text_width(text) > max ==> {
            let out = truncated(text, max);
            ||| exists|k: int|
                0 <= k <= text.len() && out == #[trigger] text.take(k) + seq!['…'] && text_width(
                    out,
                ) <= max && forall|m: int|
                    k < m <= text.len() ==> text_width(#[trigger] text.take(m) + seq!['…']) > max
            ||| out.len() == 0 && forall|m: int|
                0 <= m <= text.len() ==> text_width(#[trigger] text.take(m) + seq!['…']) > max
        },
{
    if text_width(text) > max {
        lemma_elided(text, max, text.len());
        let out = truncated(text, max);
        if out.len() > 0 {
            let k = choose|k: int|
                0 <= k <= text.len() && out == #[trigger] text.take(k) + ellipsis() && text_width(
                    out,
                ) <= max && forall|m: int|
                    k < m <= text.len() ==> text_width(#[trigger] text.take(m) + ellipsis()) > max;
            assert(out == text.take(k) + seq!['…']);
        }
    }
}

/// The number that decimal digits stand for.
pub open spec fn number(digits: Seq<char>) -> int
    decreases digits.len(),
{
    if digits.len() == 0 {
        0
    } else {
        10 * number(digits.drop_last()) + (digits.last() as int - '0' as int)
    }
}

/// A number reads back from its digits, and only zero starts with a zero.
pub proof fn law_numbers_read_back(n: nat)
    ensures
        dec(n).len() > 0,
        number(dec(n)) == n,
        forall|i: int| 0 <= i < dec(n).len() ==> '0' <= #[trigger] dec(n)[i] <= '9',
        n > 0 ==> dec(n)[0] != '0',
        number(dec2(n)) == n,
        n < 100 ==> dec2(n).len() == 2,
        n >= 10 ==> dec2(n) == dec(n),
    decreases n,
{
    reveal_with_fuel(number, 3);
    if n >= 10 {
        law_numbers_read_back(n / 10);
        assert(dec(n).drop_last() =~= dec(n / 10));
        if n < 100 {
            assert(dec(n / 10).len() == 1);
        }
        assert(number(dec(n)) == n);
    } else {
        assert(seq!['0', digit(n)].drop_last() =~= seq!['0']);
        assert(seq!['0'].drop_last() =~= Seq::<char>::empty());
        assert(seq![digit(n)].drop_last() =~= Seq::<char>::empty());
    }
}

/// A part is found where it stands first, and not found only where it stands
/// nowhere.
pub proof fn law_the_first_part_is_found(text: Seq<char>, part: Seq<char>, from: int)
    ensures
        match part_from(text, part, from) {
            Some(at) => from <= at && stands_at(text, part, at) && forall|j: int|
                from <= j < at ==> !#[trigger] stands_at(text, part, j),
            None => forall|j: int| from <= j ==> !#[trigger] stands_at(text, part, j),
        },
    decreases text.len() + 1 - from,
{
    if from <= text.len() && !stands_at(text, part, from) {
        law_the_first_part_is_found(text, part, from + 1);
    }
}

/// `from` and `to` part `text` into white space, what stands between, which
/// starts and ends with something else, and white space.
pub open spec fn is_trimmed_to(text: Seq<char>, from: int, to: int) -> bool {
    &&& 0 <= from <= to <= text.len()
    &&& all_white(text.take(from))
    &&& all_white(text.skip(to))
    &&& from < to ==> !is_white(text[from]) && !is_white(text[to - 1])
}

/// Trimming takes the white space off both ends of a text, and nothing else.
pub proof fn law_trimming_takes_white_space_off_the_ends(text: Seq<char>)
    ensures
        exists|from: int, to: int| #[trigger]
            is_trimmed_to(text, from, to) && trim(text) == text.subrange(from, to),
{
    lemma_white_prefix_is(text);
    let from = white_prefix(text) as int;
    let rest = trim_start(text);
    lemma_white_suffix_is(rest);
    let to = from + rest.len() - white_suffix(rest);
    assert(trim(text) =~= text.subrange(from, to));
    assert forall|i: int| 0 <= i < text.skip(to).len() implies is_white(
        #[trigger] text.skip(to)[i],
    ) by {
        assert(text.skip(to)[i] == rest[to - from + i]);
    }
    assert(is_trimmed_to(text, from, to));
}

/// Copies of a text follow each other, as many as were asked for.
pub proof fn law_copies_follow_each_other(text: Seq<char>, n: nat)
    ensures
        repeated(text, n).len() == n * text.len(),
        forall|k: int|
            0 <= k < n ==> #[trigger] repeated(text, n).subrange(
                k * text.len(),
                (k + 1) * text.len(),
            ) == text,
    decreases n,
{
    let len = text.len() as int;
    if n > 0 {
        let before = repeated(text, (n - 1) as nat);
        law_copies_follow_each_other(text, (n - 1) as nat);
        assert(n * len == (n - 1) * len + len) by (nonlinear_arith);
        assert forall|k: int| 0 <= k < n implies #[trigger] repeated(text, n).subrange(
            k * len,
            (k + 1) * len,
        ) == text by {
            if k < n - 1 {
                assert(0 <= k * len && (k + 1) * len <= (n - 1) * len && k * len <= (k + 1) * len)
                    by (nonlinear_arith)
                    requires
                        0 <= k < n - 1,
                        0 <= len,
                ;
                assert(before.subrange(k * len, (k + 1) * len) == text);
                assert(repeated(text, n).subrange(k * len, (k + 1) * len) =~= before.subrange(
                    k * len,
                    (k + 1) * len,
                ));
            } else {
                assert(repeated(text, n).subrange(k * len, (k + 1) * len) =~= text);
            }
        }
    } else {
        assert(n * len == 0) by (nonlinear_arith)
            requires
                n == 0,
        ;
    }
}

/// White space are the blanks, tabs and breaks, and the spaces of other widths.
pub proof fn law_white_space_is_what_unicode_calls_so(c: char)
    ensures
        is_white(c) <==> {
            let n = c as u32;
            ||| 0x9 <= n <= 0xd
            ||| n == 0x20 || n == 0x85 || n == 0xa0 || n == 0x1680
            ||| 0x2000 <= n <= 0x200a
            ||| n == 0x2028 || n == 0x2029 || n == 0x202f || n == 0x205f || n == 0x3000
        },
{
}

} // verus!
