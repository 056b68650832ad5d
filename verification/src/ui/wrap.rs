//! Prose, cut into lines.

use vstd::prelude::*;
use vstd::string::*;
use vstd::utf8::*;

use crate::geometry;
use crate::text;
use crate::text::{char_is_white, display_width, str_byte_len, str_chars, str_cut, str_trim};
use crate::views;

verus! {

/// The paragraphs of `text`, which line feeds separate.
pub open spec fn paragraphs(text: Seq<char>) -> Seq<Seq<char>>
    decreases text.len(),
{
    if text.len() == 0 {
        seq![Seq::empty()]
    } else {
        let before = paragraphs(text.drop_last());
        if text.last() == '\n' {
            before.push(Seq::empty())
        } else {
            before.drop_last().push(before.last().push(text.last()))
        }
    }
}

/// The words of `text`, which white space separates.
pub open spec fn words(text: Seq<char>) -> Seq<Seq<char>>
    decreases text.len(),
{
    if text.len() == 0 {
        Seq::empty()
    } else {
        let before = words(text.drop_last());
        let c = text.last();
        if text::is_white(c) {
            before
        } else if text.len() == 1 || text::is_white(text[text.len() - 2]) {
            before.push(seq![c])
        } else {
            before.drop_last().push(before.last().push(c))
        }
    }
}

/// The lines that the first `n` of `words` fill and the line that is still
/// open, where a line takes a word as long as `width` cells hold it.
pub open spec fn filling(words: Seq<Seq<char>>, width: nat, n: nat) -> (Seq<Seq<char>>, Seq<char>)
    decreases n,
{
    if n == 0 {
        (Seq::empty(), Seq::empty())
    } else {
        let (full, line) = filling(words, width, (n - 1) as nat);
        let word = words[n - 1];
        if line.len() == 0 {
            (full, word)
        } else if text::text_width(line) + 1 + text::text_width(word) <= width {
            (full, line.push(' ') + word)
        } else {
            (full.push(line), word)
        }
    }
}

/// The lines of a paragraph.
pub open spec fn filled(words: Seq<Seq<char>>, width: nat) -> Seq<Seq<char>> {
    let (full, line) = filling(words, width, words.len());
    if line.len() == 0 {
        full
    } else {
        full.push(line)
    }
}

/// The lines of the first `n` paragraphs: blank paragraphs become one empty
/// line, and none before the first text.
pub open spec fn wrapped_to(paras: Seq<Seq<char>>, width: nat, n: nat) -> Seq<Seq<char>>
    decreases n,
{
    if n == 0 {
        Seq::empty()
    } else {
        let before = wrapped_to(paras, width, (n - 1) as nat);
        let para = paras[n - 1];
        if !text::all_white(para) {
            before + filled(words(para), width)
        } else if before.len() > 0 && before.last().len() > 0 {
            before.push(Seq::empty())
        } else {
            before
        }
    }
}

/// `lines` without the empty ones at the end.
pub open spec fn without_empty_end(lines: Seq<Seq<char>>) -> Seq<Seq<char>>
    decreases lines.len(),
{
    if lines.len() > 0 && lines.last().len() == 0 {
        without_empty_end(lines.drop_last())
    } else {
        lines
    }
}

/// `text` in lines that hold as many words as fit in `width` cells.
pub open spec fn wrapped(text: Seq<char>, width: nat) -> Seq<Seq<char>> {
    let paras = paragraphs(text);
    without_empty_end(wrapped_to(paras, width, paras.len()))
}

fn split_paragraphs(text: &str) -> (out: Vec<String>)
    ensures
        views::of(out@) == paragraphs(text@),
{
    broadcast use views::group_views;

    let chars: Vec<char> = str_chars(text);
    let mut out: Vec<String> = Vec::new();
    let mut start: usize = 0;
    let mut i: usize = 0;
    assert(text@.take(0) =~= Seq::<char>::empty());
    assert(views::of(out@).push(text@.subrange(0, 0)) =~= paragraphs(text@.take(0)));
    while i < chars.len()
        invariant
            start <= i <= chars@.len(),
            chars@ == text@,
            views::of(out@).push(text@.subrange(start as int, i as int)) == paragraphs(
                text@.take(i as int),
            ),
        decreases chars@.len() - i,
    {
        let ghost part = text@.subrange(start as int, i as int);
        proof {
            let now = text@.take(i + 1);
            assert(now.drop_last() =~= text@.take(i as int));
            assert(now.last() == text@[i as int]);
            assert(views::of(out@).push(part).drop_last() =~= views::of(out@));
        }
        if chars[i] == '\n' {
            out.push(str_cut(text, start, i));
            start = i + 1;
            assert(text@.subrange(start as int, i + 1) =~= Seq::<char>::empty());
        } else {
            assert(text@.subrange(start as int, i + 1) =~= part.push(text@[i as int]));
        }
        i = i + 1;
    }
    assert(text@.take(i as int) =~= text@);
    out.push(str_cut(text, start, i));
    out
}

fn split_words(text: &str) -> (out: Vec<String>)
    ensures
        views::of(out@) == words(text@),
{
    broadcast use views::group_views;

    let chars: Vec<char> = str_chars(text);
    let mut out: Vec<String> = Vec::new();
    let mut start: usize = 0;
    let mut i: usize = 0;
    // a word is open while `start < i`
    assert(text@.take(0) =~= Seq::<char>::empty());
    assert(views::of(out@) =~= words(text@.take(0)));
    while i < chars.len()
        invariant
            start <= i <= chars@.len(),
            chars@ == text@,
            start < i <==> (i > 0 && !text::is_white(text@[i - 1])),
            words(text@.take(i as int)) == if start < i {
                views::of(out@).push(text@.subrange(start as int, i as int))
            } else {
                views::of(out@)
            },
        decreases chars@.len() - i,
    {
        let ghost part = text@.subrange(start as int, i as int);
        proof {
            let now = text@.take(i + 1);
            assert(now.drop_last() =~= text@.take(i as int));
            assert(now.last() == text@[i as int]);
            assert(views::of(out@).push(part).drop_last() =~= views::of(out@));
            if i > 0 {
                assert(now[now.len() - 2] == text@[i - 1]);
            }
            assert(text@.subrange(start as int, i + 1) =~= part.push(text@[i as int]));
            assert(start == i ==> part.push(text@[i as int]) =~= seq![text@[i as int]]);
        }
        if char_is_white(chars[i]) {
            if start < i {
                out.push(str_cut(text, start, i));
            }
            start = i + 1;
        }
        i = i + 1;
    }
    assert(text@.take(i as int) =~= text@);
    if start < i {
        out.push(str_cut(text, start, i));
    }
    out
}

proof fn lemma_words_exist(text: Seq<char>)
    ensures
        words(text).len() == 0 <==> text::all_white(text),
        text.len() > 0 && !text::is_white(text.last()) ==> words(text).len() > 0,
    decreases text.len(),
{
    if text.len() > 0 {
        let rest = text.drop_last();
        lemma_words_exist(rest);
        if text::is_white(text.last()) && text::all_white(rest) {
            assert forall|i: int| 0 <= i < text.len() implies text::is_white(#[trigger] text[i]) by {
                if i < rest.len() {
                    assert(text[i] == rest[i]);
                }
            }
        }
        if text::all_white(text) {
            assert forall|i: int| 0 <= i < rest.len() implies text::is_white(#[trigger] rest[i]) by {
                assert(rest[i] == text[i]);
            }
        }
    }
}

proof fn lemma_words_solid(text: Seq<char>, i: int)
    requires
        0 <= i < words(text).len(),
    ensures
        words(text)[i].len() > 0,
        forall|j: int|
            0 <= j < words(text)[i].len() ==> !text::is_white(#[trigger] words(text)[i][j]),
    decreases text.len(),
{
    if text.len() > 0 {
        let rest = text.drop_last();
        let before = words(rest);
        if i < before.len() {
            lemma_words_solid(rest, i);
        }
        lemma_words_exist(rest);
    }
}

/// Whether `word` fits behind `line`, with a blank between them.
fn fits_behind(line: &str, word: &str, width: usize) -> (fits: bool)
    ensures
        fits == (text::text_width(line@) + 1 + text::text_width(word@) <= width),
{
    let line_width: usize = display_width(line);
    let word_width: usize = display_width(word);
    line_width < width && word_width <= width - line_width - 1
}

fn push_filled(out: &mut Vec<String>, para: &str, width: usize)
    ensures
        views::of(final(out)@) == views::of(old(out)@) + filled(words(para@), width as nat),
{
    broadcast use views::group_views;

    proof {
        reveal_strlit(" ");
    }
    let parts: Vec<String> = split_words(para);
    let ghost all = words(para@);
    let ghost before = views::of(out@);
    let mut line: String = String::new();
    let mut k: usize = 0;
    assert(views::of(out@) =~= before + filling(all, width as nat, 0).0);
    while k < parts.len()
        invariant
            k <= parts@.len(),
            views::of(parts@) == all,
            all == words(para@),
            " "@ == seq![' '],
            views::of(out@) == before + filling(all, width as nat, k as nat).0,
            line@ == filling(all, width as nat, k as nat).1,
        decreases parts@.len() - k,
    {
        let word: &str = parts[k].as_str();
        assert(word@ == all[k as int]);
        if line.as_str().is_empty() {
            line = word.to_string();
        } else if fits_behind(line.as_str(), word, width) {
            let ghost open = line@;
            line.append(" ");
            line.append(word);
            assert(line@ =~= open.push(' ') + word@);
        } else {
            let ghost full = filling(all, width as nat, k as nat).0;
            let ghost open = line@;
            let ghost lines = out@;
            out.push(line);
            assert(views::of(out@) == views::of(lines).push(open));
            line = word.to_string();
            assert(views::of(out@) =~= before + full.push(open));
        }
        k = k + 1;
    }
    if !line.as_str().is_empty() {
        let ghost full = filling(all, width as nat, k as nat).0;
        let ghost open = line@;
        out.push(line);
        assert(views::of(out@) =~= before + full.push(open));
    }
}

/// Word-wraps `text` to lines of at most `width` cells; a longer word has a
/// line of its own.
pub fn wrap_text(text: &str, width: usize) -> (out: Vec<String>)
    ensures
        views::of(out@) == wrapped(text@, width as nat),
{
    broadcast use views::group_views;

    let paras: Vec<String> = split_paragraphs(text);
    let ghost all = paragraphs(text@);
    let mut out: Vec<String> = Vec::new();
    let mut p: usize = 0;
    assert(views::of(out@) =~= wrapped_to(all, width as nat, 0));
    while p < paras.len()
        invariant
            p <= paras@.len(),
            views::of(paras@) == all,
            all == paragraphs(text@),
            views::of(out@) == wrapped_to(all, width as nat, p as nat),
        decreases paras@.len() - p,
    {
        let para: &str = paras[p].as_str();
        assert(para@ == all[p as int]);
        if is_blank(para) {
            if out.len() > 0 && !out[out.len() - 1].as_str().is_empty() {
                out.push(String::new());
            }
        } else {
            push_filled(&mut out, para, width);
        }
        p = p + 1;
    }
    while out.len() > 0 && out[out.len() - 1].as_str().is_empty()
        invariant
            without_empty_end(views::of(out@)) == wrapped(text@, width as nat),
        decreases out@.len(),
    {
        let ghost before = out@;
        let last: Option<String> = out.pop();
        assert(views::of(before).drop_last() =~= views::of(out@));
    }
    out
}

fn is_blank(text: &str) -> (blank: bool)
    ensures
        blank == text::all_white(text@),
{
    let chars: Vec<char> = str_chars(text);
    let mut i: usize = 0;
    while i < chars.len()
        invariant
            i <= chars@.len(),
            chars@ == text@,
            forall|j: int| 0 <= j < i ==> text::is_white(#[trigger] chars@[j]),
        decreases chars@.len() - i,
    {
        if !char_is_white(chars[i]) {
            return false;
        }
        i = i + 1;
    }
    true
}

/// The words of `lines`, line by line.
pub open spec fn words_in(lines: Seq<Seq<char>>) -> Seq<Seq<char>>
    decreases lines.len(),
{
    if lines.len() == 0 {
        Seq::empty()
    } else {
        words_in(lines.drop_last()) + words(lines.last())
    }
}

/// A word: some characters, none of them white space.
spec fn solid(word: Seq<char>) -> bool {
    word.len() > 0 && forall|j: int| 0 <= j < word.len() ==> !text::is_white(#[trigger] word[j])
}

proof fn lemma_words_of_word(word: Seq<char>)
    requires
        solid(word),
    ensures
        words(word) == seq![word],
    decreases word.len(),
{
    let rest = word.drop_last();
    if rest.len() > 0 {
        assert(solid(rest)) by {
            assert forall|j: int| 0 <= j < rest.len() implies !text::is_white(#[trigger] rest[j]) by {
                assert(rest[j] == word[j]);
            }
        }
        lemma_words_of_word(rest);
        assert(!text::is_white(word[word.len() - 2]));
        assert(words(word) =~= seq![rest.push(word.last())]);
        assert(rest.push(word.last()) =~= word);
    } else {
        assert(words(rest) =~= Seq::<Seq<char>>::empty());
        assert(!text::is_white(word[word.len() - 1]));
        assert(words(word) =~= seq![seq![word.last()]]);
        assert(seq![word.last()] =~= word);
    }
}

proof fn lemma_words_behind(line: Seq<char>, word: Seq<char>)
    requires
        solid(word),
    ensures
        words(line.push(' ') + word) == words(line).push(word),
    decreases word.len(),
{
    let spaced = line.push(' ');
    let now = spaced + word;
    let rest = word.drop_last();
    assert(now.drop_last() =~= spaced + rest);
    assert(now.last() == word[word.len() - 1]);
    assert(spaced.drop_last() =~= line);
    assert(words(spaced) == words(line));
    if rest.len() > 0 {
        assert(solid(rest)) by {
            assert forall|j: int| 0 <= j < rest.len() implies !text::is_white(#[trigger] rest[j]) by {
                assert(rest[j] == word[j]);
            }
        }
        lemma_words_behind(line, rest);
        assert(now[now.len() - 2] == word[word.len() - 2]);
        assert(rest.push(word.last()) =~= word);
        assert(words(line).push(rest).drop_last() =~= words(line));
    } else {
        assert(spaced + rest =~= spaced);
        assert(now[now.len() - 2] == ' ');
        assert(seq![word.last()] =~= word);
    }
}

proof fn lemma_filling_words(all: Seq<Seq<char>>, width: nat, n: nat)
    requires
        n <= all.len(),
        forall|i: int| 0 <= i < all.len() ==> solid(#[trigger] all[i]),
    ensures
        words_in(filling(all, width, n).0) + words(filling(all, width, n).1) == all.take(n as int),
        n > 0 ==> filling(all, width, n).1.len() > 0,
        forall|k: int|
            0 <= k < filling(all, width, n).0.len() ==> (#[trigger] filling(
                all,
                width,
                n,
            ).0[k]).len() > 0,
    decreases n,
{
    if n == 0 {
        assert(words_in(filling(all, width, n).0) + words(filling(all, width, n).1) =~= all.take(0));
    } else {
        lemma_filling_words(all, width, (n - 1) as nat);
        let (full, line) = filling(all, width, (n - 1) as nat);
        let word = all[n - 1];
        assert(solid(word));
        lemma_words_of_word(word);
        let before = words_in(full);
        assert(all.take(n as int) =~= all.take(n - 1).push(word));
        if line.len() == 0 {
            assert(words(line) =~= Seq::<Seq<char>>::empty());
            assert(before + seq![word] =~= (before + words(line)).push(word));
        } else if text::text_width(line) + 1 + text::text_width(word) <= width {
            lemma_words_behind(line, word);
            assert(before + words(line).push(word) =~= (before + words(line)).push(word));
        } else {
            assert(full.push(line).drop_last() =~= full);
            assert(words_in(full.push(line)) == before + words(line));
            assert((before + words(line)) + seq![word] =~= (before + words(line)).push(word));
        }
    }
}

proof fn lemma_words_in_concat(a: Seq<Seq<char>>, b: Seq<Seq<char>>)
    ensures
        words_in(a + b) == words_in(a) + words_in(b),
    decreases b.len(),
{
    if b.len() == 0 {
        assert(a + b =~= a);
        assert(words_in(a) + words_in(b) =~= words_in(a));
    } else {
        assert((a + b).drop_last() =~= a + b.drop_last());
        lemma_words_in_concat(a, b.drop_last());
        assert(words_in(a + b) =~= words_in(a) + words_in(b));
    }
}

proof fn lemma_filled(para: Seq<char>, width: nat)
    requires
        !text::all_white(para),
    ensures
        words_in(filled(words(para), width)) == words(para),
        filled(words(para), width).len() > 0,
        forall|k: int|
            0 <= k < filled(words(para), width).len() ==> (#[trigger] filled(
                words(para),
                width,
            )[k]).len() > 0,
{
    let all = words(para);
    assert forall|i: int| 0 <= i < all.len() implies solid(#[trigger] all[i]) by {
        lemma_words_solid(para, i);
    }
    lemma_words_exist(para);
    lemma_filling_words(all, width, all.len());
    let (full, line) = filling(all, width, all.len());
    assert(filled(all, width).drop_last() =~= full);
    assert(all.take(all.len() as int) =~= all);
}

/// Lines without an empty one at their ends, or two in a row.
pub open spec fn tidy(lines: Seq<Seq<char>>) -> bool {
    &&& lines.len() > 0 ==> lines[0].len() > 0 && lines.last().len() > 0
    &&& no_empty_pair(lines)
}

/// No two empty lines in a row.
pub open spec fn no_empty_pair(lines: Seq<Seq<char>>) -> bool {
    forall|i: int| 0 <= i < lines.len() - 1 ==> (#[trigger] lines[i]).len() > 0 || lines[i + 1].len() > 0
}

proof fn lemma_wrapped_to(paras: Seq<Seq<char>>, width: nat, n: nat)
    requires
        n <= paras.len(),
    ensures
        words_in(wrapped_to(paras, width, n)) == words_in(paras.take(n as int)),
        wrapped_to(paras, width, n).len() > 0 ==> wrapped_to(paras, width, n)[0].len() > 0,
        no_empty_pair(wrapped_to(paras, width, n)),
    decreases n,
{
    if n == 0 {
        assert(paras.take(0) =~= Seq::<Seq<char>>::empty());
    } else {
        lemma_wrapped_to(paras, width, (n - 1) as nat);
        let before = wrapped_to(paras, width, (n - 1) as nat);
        let now = wrapped_to(paras, width, n);
        let para = paras[n - 1];
        assert(paras.take(n as int).drop_last() =~= paras.take(n - 1));
        lemma_words_exist(para);
        if !text::all_white(para) {
            let lines = filled(words(para), width);
            lemma_filled(para, width);
            lemma_words_in_concat(before, lines);
            assert forall|i: int| 0 <= i < now.len() - 1 implies (#[trigger] now[i]).len() > 0
                || now[i + 1].len() > 0 by {
                if i + 1 < before.len() {
                    assert(now[i] == before[i] && now[i + 1] == before[i + 1]);
                } else {
                    assert(now[i + 1] == lines[i + 1 - before.len()]);
                }
            }
            if before.len() == 0 {
                assert(now[0] == lines[0]);
            }
        } else {
            assert(words(para) =~= Seq::<Seq<char>>::empty());
            assert(words_in(paras.take(n as int)) =~= words_in(paras.take(n - 1)));
            if before.len() > 0 && before.last().len() > 0 {
                assert(now.drop_last() =~= before);
                assert(words(now.last()) =~= Seq::<Seq<char>>::empty());
                assert(words_in(now) =~= words_in(before));
                assert forall|i: int| 0 <= i < now.len() - 1 implies (#[trigger] now[i]).len() > 0
                    || now[i + 1].len() > 0 by {
                    if i + 1 < before.len() {
                        assert(now[i] == before[i] && now[i + 1] == before[i + 1]);
                    } else {
                        assert(now[i] == before.last());
                    }
                }
            }
        }
    }
}

proof fn lemma_without_empty_end(lines: Seq<Seq<char>>)
    requires
        lines.len() > 0 ==> lines[0].len() > 0,
        no_empty_pair(lines),
    ensures
        words_in(without_empty_end(lines)) == words_in(lines),
        tidy(without_empty_end(lines)),
    decreases lines.len(),
{
    if lines.len() > 0 && lines.last().len() == 0 {
        let rest = lines.drop_last();
        assert(words(lines.last()) =~= Seq::<Seq<char>>::empty());
        assert(words_in(lines) =~= words_in(rest));
        assert forall|i: int| 0 <= i < rest.len() - 1 implies (#[trigger] rest[i]).len() > 0
            || rest[i + 1].len() > 0 by {
            assert(rest[i] == lines[i] && rest[i + 1] == lines[i + 1]);
        }
        lemma_without_empty_end(rest);
    }
}

proof fn lemma_paragraph_words(text: Seq<char>)
    ensures
        paragraphs(text).len() > 0,
        words_in(paragraphs(text)) == words(text),
        paragraphs(text).last().len() > 0 ==> text.len() > 0 && paragraphs(text).last().last()
            == text.last(),
        paragraphs(text).last().len() == 0 ==> text.len() == 0 || text.last() == '\n',
    decreases text.len(),
{
    if text.len() == 0 {
        reveal_with_fuel(words_in, 2);
        assert(paragraphs(text).drop_last() =~= Seq::<Seq<char>>::empty());
        assert(words(paragraphs(text).last()) =~= Seq::<Seq<char>>::empty());
        assert(words_in(paragraphs(text)) =~= Seq::<Seq<char>>::empty());
    } else {
        let rest = text.drop_last();
        let c = text.last();
        lemma_paragraph_words(rest);
        let before = paragraphs(rest);
        let now = paragraphs(text);
        let head = before.drop_last();
        if c == '\n' {
            assert(now.drop_last() =~= before);
            assert(words(now.last()) =~= Seq::<Seq<char>>::empty());
            assert(words_in(now) =~= words_in(before));
        } else {
            let line = before.last();
            let longer = line.push(c);
            assert(now.drop_last() =~= head);
            assert(longer.drop_last() =~= line);
            assert(words_in(before) == words_in(head) + words(line));
            if line.len() > 0 {
                assert(longer[longer.len() - 2] == line.last());
                assert(text[text.len() - 2] == rest.last());
            } else if rest.len() > 0 {
                assert(text[text.len() - 2] == rest.last());
            }
            if text::is_white(c) {
                assert(words(longer) == words(line));
            } else if line.len() == 0 || text::is_white(line.last()) {
                assert(words(longer) == words(line).push(seq![c]));
                assert(words_in(now) =~= (words_in(head) + words(line)).push(seq![c]));
            } else {
                lemma_words_exist(line);
                let w = words(line);
                let joined = words_in(head) + w;
                assert(joined.last() == w.last());
                assert(joined.drop_last() =~= words_in(head) + w.drop_last());
                assert(words_in(now) =~= joined.drop_last().push(joined.last().push(c)));
            }
        }
    }
}

/// Wrapping keeps every word, in order, and nothing else but the breaks.
pub proof fn law_wrapping_keeps_the_words(text: Seq<char>, width: nat)
    ensures
        words_in(wrapped(text, width)) == words(text),
{
    let paras = paragraphs(text);
    lemma_paragraph_words(text);
    lemma_wrapped_to(paras, width, paras.len());
    assert(paras.take(paras.len() as int) =~= paras);
    lemma_without_empty_end(wrapped_to(paras, width, paras.len()));
}

/// Wrapped text neither starts nor ends with an empty line, and no two empty
/// lines follow each other.
pub proof fn law_wrapped_text_is_tidy(text: Seq<char>, width: nat)
    ensures
        tidy(wrapped(text, width)),
{
    let paras = paragraphs(text);
    lemma_wrapped_to(paras, width, paras.len());
    lemma_without_empty_end(wrapped_to(paras, width, paras.len()));
}

/// `text` up to its first line feed.
pub open spec fn first_line(text: Seq<char>) -> Seq<char>
    decreases text.len(),
{
    if text.len() == 0 || text[0] == '\n' {
        Seq::empty()
    } else {
        seq![text[0]] + first_line(text.drop_first())
    }
}

/// The position of the last blank of `text`.
pub open spec fn last_blank(text: Seq<char>) -> Option<int>
    decreases text.len(),
{
    if text.len() == 0 {
        None
    } else if text.last() == ' ' {
        Some(text.len() - 1)
    } else {
        last_blank(text.drop_last())
    }
}

/// The most characters that a query keeps.
pub const QUERY_MAX_CHARS: usize = 30;

/// The fewest characters that are worth looking for.
pub const QUERY_MIN_CHARS: usize = 8;

/// The start of a line that a query keeps: all of it where it is short, else as
/// many whole words as fit.
pub open spec fn query_start(line: Seq<char>) -> Seq<char> {
    if line.len() <= QUERY_MAX_CHARS {
        line
    } else {
        let start = line.take(QUERY_MAX_CHARS as int);
        match last_blank(start) {
            Some(cut) => start.take(cut),
            None => start,
        }
    }
}

/// The first words of the prompt `head`, if they are enough to look for.
pub open spec fn query_of(head: Seq<char>) -> Option<Seq<char>> {
    let query = text::trim(query_start(text::trim(first_line(head))));
    if query.len() >= QUERY_MIN_CHARS {
        Some(query)
    } else {
        None
    }
}

proof fn lemma_first_line(text: Seq<char>, n: nat)
    requires
        n <= text.len(),
        forall|i: int| 0 <= i < n ==> text[i] != '\n',
        n < text.len() ==> text[n as int] == '\n',
    ensures
        first_line(text) == text.take(n as int),
    decreases n,
{
    if n > 0 {
        let rest = text.drop_first();
        assert forall|i: int| 0 <= i < n - 1 implies rest[i] != '\n' by {
            assert(rest[i] == text[i + 1]);
        }
        lemma_first_line(rest, (n - 1) as nat);
        assert(seq![text[0]] + rest.take(n - 1) =~= text.take(n as int));
    } else {
        assert(first_line(text) =~= text.take(0));
    }
}

proof fn lemma_last_blank(text: Seq<char>, n: int)
    requires
        0 <= n <= text.len(),
        forall|i: int| n <= i < text.len() ==> text[i] != ' ',
        n > 0 ==> text[n - 1] == ' ',
    ensures
        last_blank(text) == if n > 0 {
            Some(n - 1)
        } else {
            None
        },
    decreases text.len(),
{
    if n < text.len() {
        lemma_last_blank(text.drop_last(), n);
    }
}

/// The first words of a prompt, short enough to sit on one feed line.
pub fn feed_query(head: &str) -> (out: Option<String>)
    ensures
        views::text(out) == query_of(head@),
{
    let chars: Vec<char> = str_chars(head);
    let mut n: usize = 0;
    while n < chars.len() && chars[n] != '\n'
        invariant
            n <= chars@.len(),
            chars@ == head@,
            forall|i: int| 0 <= i < n ==> chars@[i] != '\n',
        decreases chars@.len() - n,
    {
        n = n + 1;
    }
    proof {
        lemma_first_line(head@, n as nat);
        assert(head@.subrange(0, n as int) =~= head@.take(n as int));
    }
    let whole: String = str_cut(head, 0, n);
    let line: String = str_trim(whole.as_str());
    let letters: Vec<char> = str_chars(line.as_str());
    let start: String = if letters.len() <= QUERY_MAX_CHARS {
        line
    } else {
        let mut cut: usize = QUERY_MAX_CHARS;
        while cut > 0 && letters[cut - 1] != ' '
            invariant
                cut <= QUERY_MAX_CHARS < letters@.len(),
                letters@ == line@,
                forall|i: int| cut <= i < QUERY_MAX_CHARS ==> letters@[i] != ' ',
            decreases cut,
        {
            cut = cut - 1;
        }
        proof {
            let part = line@.take(QUERY_MAX_CHARS as int);
            lemma_last_blank(part, cut as int);
            assert(cut > 0 ==> part.take(cut - 1) =~= line@.subrange(0, cut - 1));
            assert(part =~= line@.subrange(0, QUERY_MAX_CHARS as int));
        }
        if cut > 0 {
            str_cut(line.as_str(), 0, cut - 1)
        } else {
            str_cut(line.as_str(), 0, QUERY_MAX_CHARS)
        }
    };
    let query: String = str_trim(start.as_str());
    if query.as_str().unicode_len() >= QUERY_MIN_CHARS {
        Some(query)
    } else {
        None
    }
}

proof fn lemma_trim_within(text: Seq<char>)
    ensures
        exists|from: int, to: int|
            0 <= from <= to <= text.len() && text::trim(text) == #[trigger] text.subrange(from, to),
        text::trim(text).len() <= text.len(),
{
    text::lemma_white_prefix_is(text);
    let kept = text::trim_start(text);
    text::lemma_white_suffix_is(kept);
    let from = text::white_prefix(text) as int;
    let to = text.len() - text::white_suffix(kept);
    assert(text::trim(text) =~= text.subrange(from, to));
}

/// `part` is a stretch of the first line of `text`.
pub open spec fn on_first_line(text: Seq<char>, part: Seq<char>) -> bool {
    exists|from: int, to: int|
        0 <= from <= to <= first_line(text).len() && part == #[trigger] first_line(text).subrange(
            from,
            to,
        )
}

/// A query is a stretch of the prompt's first line, of eight to thirty characters.
pub proof fn law_queries_are_found_on_the_first_line(head: Seq<char>)
    ensures
        query_of(head) matches Some(query) ==> {
            &&& QUERY_MIN_CHARS <= query.len() <= QUERY_MAX_CHARS
            &&& on_first_line(head, query)
        },
{
    let line = first_line(head);
    let trimmed = text::trim(line);
    let start = query_start(trimmed);
    let query = text::trim(start);
    lemma_trim_within(line);
    lemma_trim_within(start);
    lemma_blank_within(trimmed.take(QUERY_MAX_CHARS as int));
    let (a, b) = choose|from: int, to: int|
        0 <= from <= to <= line.len() && trimmed == #[trigger] line.subrange(from, to);
    let (c, d) = choose|from: int, to: int|
        0 <= from <= to <= start.len() && query == #[trigger] start.subrange(from, to);
    assert(start.len() <= trimmed.len());
    assert(start =~= trimmed.take(start.len() as int));
    assert(query =~= line.subrange(a + c, a + d));
}

proof fn lemma_blank_within(text: Seq<char>)
    ensures
        last_blank(text) matches Some(i) ==> 0 <= i < text.len(),
    decreases text.len(),
{
    if text.len() > 0 && text.last() != ' ' {
        lemma_blank_within(text.drop_last());
    }
}

/// A line of prose and the byte of the prose that it starts at.
#[derive(Debug)]
pub struct WrappedLine {
    pub text: String,
    pub start: usize,
}

/// A [`WrappedLine`] by its text.
pub struct ProseLine {
    pub text: Seq<char>,
    pub start: nat,
}

impl View for WrappedLine {
    type V = ProseLine;

    open spec fn view(&self) -> ProseLine {
        ProseLine { text: self.text@, start: self.start as nat }
    }
}

/// The cells that the characters of `text` take one by one.
pub open spec fn char_widths(text: Seq<char>) -> nat
    decreases text.len(),
{
    if text.len() == 0 {
        0
    } else {
        char_widths(text.drop_last()) + text::text_width(seq![text.last()])
    }
}

/// How many characters of `text`, from the first, fit in `avail` cells.
pub open spec fn fit_len(text: Seq<char>, avail: nat) -> nat
    decreases text.len(),
{
    if text.len() == 0 || text::text_width(seq![text[0]]) > avail {
        0
    } else {
        1 + fit_len(text.drop_first(), (avail - text::text_width(seq![text[0]])) as nat)
    }
}

/// How many characters of `text` stand on a line of `avail` cells: up to the
/// last blank that fits, else all that fit, and always one.
pub open spec fn head_len(text: Seq<char>, avail: nat) -> nat {
    let fit = fit_len(text, avail);
    let cut = match last_blank(text.take(fit as int)) {
        Some(blank) => blank,
        None => fit as int,
    };
    geometry::max(cut, 1) as nat
}

/// The lines of `prose` from its character `from` on, when `k` lines stand
/// above; the first line has `first` cells, the others `rest`, and the last of
/// `max_lines` is cut short.
pub open spec fn prose_lines(
    prose: Seq<char>,
    from: nat,
    k: nat,
    first: nat,
    rest: nat,
    max_lines: nat,
) -> Seq<ProseLine>
    decreases
            (if from >= prose.len() {
                0
            } else {
                prose.len() - from
            }),
{
    if from >= prose.len() || k >= max_lines {
        Seq::empty()
    } else {
        let avail = if k == 0 {
            first
        } else {
            rest
        };
        let remainder = prose.skip(from as int);
        let start = text::byte_len(prose.take(from as int));
        if text::text_width(remainder) <= avail || k + 1 == max_lines {
            seq![ProseLine { text: text::truncated(remainder, avail), start }]
        } else {
            let head = head_len(remainder, avail);
            let skipped = text::white_prefix(remainder.skip(head as int));
            seq![ProseLine { text: remainder.take(head as int), start }] + prose_lines(
                prose,
                from + head + skipped,
                k + 1,
                first,
                rest,
                max_lines,
            )
        }
    }
}

/// The lines of `prose`; an empty one where there is none.
pub open spec fn wrapped_prose(prose: Seq<char>, first: nat, rest: nat, max_lines: nat) -> Seq<
    ProseLine,
> {
    let lines = prose_lines(prose, 0, 0, first, rest, max_lines);
    if lines.len() == 0 {
        seq![ProseLine { text: Seq::empty(), start: 0 }]
    } else {
        lines
    }
}

proof fn lemma_fit_len(text: Seq<char>, avail: nat)
    ensures
        fit_len(text, avail) <= text.len(),
        char_widths(text.take(fit_len(text, avail) as int)) <= avail,
    decreases text.len(),
{
    assert(text.take(0) =~= Seq::<char>::empty());
    if text.len() > 0 && text::text_width(seq![text[0]]) <= avail {
        let w = text::text_width(seq![text[0]]);
        let rest = text.drop_first();
        let left = (avail - w) as nat;
        lemma_fit_len(rest, left);
        let n = fit_len(rest, left);
        assert(text.take(1 + n as int) =~= seq![text[0]] + rest.take(n as int));
        lemma_char_widths_front(text[0], rest.take(n as int));
    }
}

proof fn lemma_char_widths_front(c: char, tail: Seq<char>)
    ensures
        char_widths(seq![c] + tail) == text::text_width(seq![c]) + char_widths(tail),
    decreases tail.len(),
{
    let all = seq![c] + tail;
    if tail.len() == 0 {
        assert(all.drop_last() =~= Seq::<char>::empty());
        assert(all.last() == c);
        reveal_with_fuel(char_widths, 2);
    } else {
        assert(all.drop_last() =~= seq![c] + tail.drop_last());
        assert(all.last() == tail.last());
        lemma_char_widths_front(c, tail.drop_last());
    }
}

proof fn lemma_head_len(text: Seq<char>, avail: nat)
    requires
        text.len() > 0,
    ensures
        1 <= head_len(text, avail) <= text.len(),
        char_widths(text.take(head_len(text, avail) as int)) <= avail || head_len(text, avail)
            == 1,
{
    lemma_fit_len(text, avail);
    let fit = fit_len(text, avail);
    lemma_blank_within(text.take(fit as int));
    if let Some(blank) = last_blank(text.take(fit as int)) {
        lemma_char_widths_less(text.take(fit as int), blank);
        assert(text.take(fit as int).take(blank) =~= text.take(blank));
    }
}

proof fn lemma_char_widths_less(text: Seq<char>, n: int)
    requires
        0 <= n <= text.len(),
    ensures
        char_widths(text.take(n)) <= char_widths(text),
    decreases text.len(),
{
    if n < text.len() {
        lemma_char_widths_less(text.drop_last(), n);
        assert(text.drop_last().take(n) =~= text.take(n));
    } else {
        assert(text.take(n) =~= text);
    }
}

fn fit_count(prose: &str, from: usize, len: usize, avail: usize) -> (fit: usize)
    requires
        from <= len == prose@.len(),
    ensures
        fit == fit_len(prose@.skip(from as int), avail as nat),
        from + fit <= len,
{
    let mut left: usize = avail;
    let mut i: usize = from;
    while i < len
        invariant
            from <= i <= len == prose@.len(),
            fit_len(prose@.skip(from as int), avail as nat) == (i - from) + fit_len(
                prose@.skip(i as int),
                left as nat,
            ),
        decreases len - i,
    {
        let letter: &str = prose.substring_char(i, i + 1);
        let width: usize = display_width(letter);
        proof {
            let here = prose@.skip(i as int);
            assert(letter@ =~= seq![here[0]]);
            assert(here.drop_first() =~= prose@.skip(i + 1));
        }
        if width > left {
            return i - from;
        }
        left = left - width;
        i = i + 1;
    }
    i - from
}

/// Word-wraps `text` into up to `max_lines` lines of `first` and then `rest`
/// cells; the last line is cut short.
#[verifier::spinoff_prover]
#[verifier::rlimit(40)]
pub fn wrap_prose(text: &str, first: usize, rest: usize, max_lines: usize) -> (out: Vec<
    WrappedLine,
>)
    ensures
        views::of(out@) == wrapped_prose(text@, first as nat, rest as nat, max_lines as nat),
        out@.len() < max_lines || text::text_width(out@.last().text@) <= (if out@.len() == 1 {
            first
        } else {
            rest
        }),
{
    broadcast use views::group_views;

    let chars: Vec<char> = str_chars(text);
    let len: usize = chars.len();
    let ghost all = prose_lines(text@, 0, 0, first as nat, rest as nat, max_lines as nat);
    let mut lines: Vec<WrappedLine> = Vec::new();
    let mut from: usize = 0;
    let mut ended = false;
    while !ended && from < len && lines.len() < max_lines
        invariant
            chars@ == text@,
            from <= len == text@.len(),
            len == chars.len(),
            lines@.len() <= max_lines,
            !ended ==> lines@.len() < max_lines || max_lines == 0,
            all == prose_lines(text@, 0, 0, first as nat, rest as nat, max_lines as nat),
            !ended ==> all == views::of(lines@) + prose_lines(
                text@,
                from as nat,
                lines@.len(),
                first as nat,
                rest as nat,
                max_lines as nat,
            ),
            ended ==> all == views::of(lines@) && lines@.len() > 0,
            ended ==> text::text_width(lines@.last().text@) <= (if lines@.len() == 1 {
                first
            } else {
                rest
            }),
        decreases
                len - from,
                if ended {
                    0int
                } else {
                    1int
                },
    {
        let avail: usize = if lines.len() == 0 {
            first
        } else {
            rest
        };
        let remainder: &str = text.substring_char(from, len);
        let start: usize = str_byte_len(text.substring_char(0, from));
        let ghost k = lines@.len();
        let ghost before = views::of(lines@);
        assert(remainder@ =~= text@.skip(from as int));
        assert(text@.subrange(0, from as int) =~= text@.take(from as int));
        if display_width(remainder) <= avail || lines.len() + 1 == max_lines {
            let shown: String = text::truncate_end(remainder, avail);
            lines.push(WrappedLine { text: shown, start });
            ended = true;
            assert(views::of(lines@) =~= all);
        } else {
            let fit: usize = fit_count(text, from, len, avail);
            let mut cut: usize = fit;
            while cut > 0 && chars[from + cut - 1] != ' '
                invariant
                    cut <= fit,
                    from + fit <= len == chars.len(),
                    chars@ == text@,
                    forall|i: int| from + cut <= i < from + fit ==> chars@[i] != ' ',
                decreases cut,
            {
                cut = cut - 1;
            }
            proof {
                let fitted = remainder@.take(fit as int);
                assert forall|i: int| cut <= i < fitted.len() implies fitted[i] != ' ' by {
                    assert(fitted[i] == chars@[from + i]);
                }
                assert(cut > 0 ==> fitted[cut - 1] == chars@[from + cut - 1]);
                lemma_last_blank(fitted, cut as int);
                lemma_head_len(remainder@, avail as nat);
            }
            let end: usize = if cut > 1 {
                cut - 1
            } else if cut == 1 {
                1
            } else if fit > 0 {
                fit
            } else {
                1
            };
            assert(end == head_len(remainder@, avail as nat));
            lines.push(WrappedLine { text: str_cut(text, from, from + end), start });
            let skipped: usize = text::white_run(&chars, from + end);
            proof {
                assert(text@.subrange(from as int, from + end) =~= remainder@.take(end as int));
                assert(remainder@.skip(end as int) =~= text@.skip(from + end));
                let line = ProseLine {
                    text: remainder@.take(end as int),
                    start: text::byte_len(text@.take(from as int)),
                };
                assert(lines@.last()@ == line);
                let tail = prose_lines(
                    text@,
                    (from + end + skipped) as nat,
                    k + 1,
                    first as nat,
                    rest as nat,
                    max_lines as nat,
                );
                assert(before + (seq![line] + tail) =~= before.push(line) + tail);
            }
            from = from + end + skipped;
        }
    }
    proof {
        if !ended {
            assert(all =~= views::of(lines@));
        }
    }
    if lines.len() == 0 {
        let nothing: String = String::new();
        let width: usize = display_width(nothing.as_str());
        assert(width == 0);
        lines.push(WrappedLine { text: nothing, start: 0 });
        assert(views::of(lines@) =~= wrapped_prose(
            text@,
            first as nat,
            rest as nat,
            max_lines as nat,
        ));
    }
    lines
}

/// Where, in bytes of the line, a tint begins that begins at byte `tint_start`
/// of the prose; nowhere for a line that ends before it.
pub open spec fn tint_in(line: ProseLine, tint_start: Option<usize>) -> Option<usize> {
    match tint_start {
        None => None,
        Some(ts) => {
            let len = text::byte_len(line.text) as int;
            let at = geometry::min(geometry::less(ts as int, line.start as int), len);
            if ts >= line.start + len || !is_char_boundary(encode_utf8(line.text), at) {
                None
            } else {
                Some(at as usize)
            }
        },
    }
}

/// Where in `line` a tint begins that begins at byte `tint_start` of the prose.
pub fn line_tint_at(line: &WrappedLine, tint_start: Option<usize>) -> (out: Option<usize>)
    ensures
        out == tint_in(line@, tint_start),
{
    let ts: usize = match tint_start {
        Some(ts) => ts,
        None => {
            return None;
        },
    };
    let len: usize = str_byte_len(line.text.as_str());
    let behind: usize = ts.saturating_sub(line.start);
    let at: usize = if behind < len {
        behind
    } else {
        len
    };
    if (ts >= line.start && behind >= len) || !line.text.as_str().is_char_boundary(at) {
        return None;
    }
    Some(at)
}

proof fn lemma_prose_lines(
    prose: Seq<char>,
    from: nat,
    k: nat,
    first: nat,
    rest: nat,
    max_lines: nat,
)
    requires
        k <= max_lines,
    ensures
        prose_lines(prose, from, k, first, rest, max_lines).len() <= max_lines - k,
        forall|i: int|
            0 <= i < prose_lines(prose, from, k, first, rest, max_lines).len() ==> text::byte_len(
                prose.take(from as int),
            ) <= (#[trigger] prose_lines(prose, from, k, first, rest, max_lines)[i]).start,
        forall|i: int, j: int|
            0 <= i < j < prose_lines(prose, from, k, first, rest, max_lines).len() ==> (
            #[trigger] prose_lines(prose, from, k, first, rest, max_lines)[i]).start < (
            #[trigger] prose_lines(prose, from, k, first, rest, max_lines)[j]).start,
        forall|i: int|
            0 <= i < prose_lines(prose, from, k, first, rest, max_lines).len() - 1
                ==> char_widths(
                (#[trigger] prose_lines(prose, from, k, first, rest, max_lines)[i]).text,
            ) <= (if k + i == 0 {
                first
            } else {
                rest
            }) || prose_lines(prose, from, k, first, rest, max_lines)[i].text.len() == 1,
    decreases
            (if from >= prose.len() {
                0
            } else {
                prose.len() - from
            }),
{
    let all = prose_lines(prose, from, k, first, rest, max_lines);
    if from < prose.len() && k < max_lines {
        let avail = if k == 0 {
            first
        } else {
            rest
        };
        let remainder = prose.skip(from as int);
        let start = text::byte_len(prose.take(from as int));
        if text::text_width(remainder) <= avail || k + 1 == max_lines {
        } else {
            let head = head_len(remainder, avail);
            let skipped = text::white_prefix(remainder.skip(head as int));
            let next = from + head + skipped;
            lemma_head_len(remainder, avail);
            text::lemma_white_prefix_is(remainder.skip(head as int));
            lemma_prose_lines(prose, next, k + 1, first, rest, max_lines);
            let tail = prose_lines(prose, next, k + 1, first, rest, max_lines);
            assert(start < text::byte_len(prose.take(next as int))) by {
                let more = prose.subrange(from as int, next as int);
                assert(prose.take(next as int) =~= prose.take(from as int) + more);
                text::lemma_encode_concat(prose.take(from as int), more);
                text::lemma_encode_some(more);
            }
            assert forall|i: int| 0 <= i < all.len() implies start <= (#[trigger] all[i]).start by {
                if i > 0 {
                    assert(all[i] == tail[i - 1]);
                }
            }
            assert forall|i: int, j: int| 0 <= i < j < all.len() implies (#[trigger] all[i]).start
                < (#[trigger] all[j]).start by {
                assert(all[j] == tail[j - 1]);
                if i > 0 {
                    assert(all[i] == tail[i - 1]);
                }
            }
            assert forall|i: int| 0 <= i < all.len() - 1 implies char_widths(
                (#[trigger] all[i]).text,
            ) <= (if k + i == 0 {
                first
            } else {
                rest
            }) || all[i].text.len() == 1 by {
                if i > 0 {
                    assert(all[i] == tail[i - 1]);
                }
            }
        }
    }
}

/// Wrapped prose has a line, and no more than was asked for; its lines follow
/// each other in the prose; and the characters of every line but the last fit
/// in its cells, unless a line is a single character.
pub proof fn law_prose_lines_fit_and_follow(
    prose: Seq<char>,
    first: nat,
    rest: nat,
    max_lines: nat,
)
    requires
        max_lines > 0,
    ensures
        1 <= wrapped_prose(prose, first, rest, max_lines).len() <= max_lines,
        forall|i: int, j: int|
            0 <= i < j < wrapped_prose(prose, first, rest, max_lines).len() ==> (
            #[trigger] wrapped_prose(prose, first, rest, max_lines)[i]).start < (
            #[trigger] wrapped_prose(prose, first, rest, max_lines)[j]).start,
        forall|i: int|
            0 <= i < wrapped_prose(prose, first, rest, max_lines).len() - 1 ==> char_widths(
                (#[trigger] wrapped_prose(prose, first, rest, max_lines)[i]).text,
            ) <= (if i == 0 {
                first
            } else {
                rest
            }) || wrapped_prose(prose, first, rest, max_lines)[i].text.len() == 1,
{
    lemma_prose_lines(prose, 0, 0, first, rest, max_lines);
}

/// The tint of a line lies on a character of it, and it is the whole line where
/// the tint begins before the line.
pub proof fn law_tints_lie_on_their_line(line: ProseLine, tint_start: Option<usize>)
    requires
        text::byte_len(line.text) <= usize::MAX,
    ensures
        tint_in(line, tint_start) matches Some(at) ==> {
            &&& at <= text::byte_len(line.text)
            &&& is_char_boundary(encode_utf8(line.text), at as int)
            &&& tint_start->0 >= line.start ==> at == tint_start->0 - line.start
            &&& tint_start->0 < line.start ==> at == 0
        },
{
}

/// `words` behind each other, with one blank between.
pub open spec fn joined(words: Seq<Seq<char>>) -> Seq<char>
    decreases words.len(),
{
    if words.len() == 0 {
        Seq::empty()
    } else if words.len() == 1 {
        words[0]
    } else {
        joined(words.drop_last()) + seq![' '] + words.last()
    }
}

/// `line` is its words with one blank between, and each word but the first fits
/// behind those before it in `width` cells.
pub open spec fn holds_its_words(line: Seq<char>, width: nat) -> bool {
    &&& line == joined(words(line))
    &&& forall|k: int|
        1 <= k < words(line).len() ==> text::text_width(joined(words(line).take(k))) + 1
            + text::text_width(#[trigger] words(line)[k]) <= width
}

proof fn lemma_holds_word(word: Seq<char>, width: nat)
    requires
        solid(word),
    ensures
        holds_its_words(word, width),
{
    lemma_words_of_word(word);
}

proof fn lemma_holds_more(line: Seq<char>, word: Seq<char>, width: nat)
    requires
        holds_its_words(line, width),
        line.len() > 0,
        solid(word),
        text::text_width(line) + 1 + text::text_width(word) <= width,
    ensures
        holds_its_words(line.push(' ') + word, width),
{
    let longer = line.push(' ') + word;
    let before = words(line);
    lemma_words_behind(line, word);
    let all = words(longer);
    assert(all.drop_last() =~= before);
    assert(before.len() > 0);
    assert(longer =~= line + seq![' '] + word);
    assert forall|k: int| 1 <= k < all.len() implies text::text_width(joined(all.take(k))) + 1
        + text::text_width(#[trigger] all[k]) <= width by {
        if k < before.len() {
            assert(all.take(k) =~= before.take(k));
            assert(all[k] == before[k]);
        } else {
            assert(all.take(k) =~= before);
        }
    }
}

/// The first word of `line` would not fit behind `above` in `width` cells.
pub open spec fn breaks_behind(above: Seq<char>, line: Seq<char>, width: nat) -> bool {
    words(line).len() > 0 && text::text_width(above) + 1 + text::text_width(words(line)[0]) > width
}

proof fn lemma_filling_holds(all: Seq<Seq<char>>, width: nat, n: nat)
    requires
        n <= all.len(),
        forall|i: int| 0 <= i < all.len() ==> solid(#[trigger] all[i]),
    ensures
        ({
            let (full, line) = filling(all, width, n);
            &&& forall|k: int|
                0 <= k < full.len() ==> holds_its_words(#[trigger] full[k], width)
            &&& line.len() > 0 ==> holds_its_words(line, width)
            &&& n > 0 ==> line.len() > 0
            &&& forall|k: int|
                0 <= k < full.len() - 1 ==> breaks_behind(#[trigger] full[k], full[k + 1], width)
            &&& full.len() > 0 ==> breaks_behind(full.last(), line, width)
        }),
    decreases n,
{
    if n > 0 {
        lemma_filling_holds(all, width, (n - 1) as nat);
        let (full, line) = filling(all, width, (n - 1) as nat);
        let word = all[n - 1];
        assert(solid(word));
        lemma_words_of_word(word);
        lemma_holds_word(word, width);
        if line.len() > 0 {
            if text::text_width(line) + 1 + text::text_width(word) <= width {
                lemma_holds_more(line, word, width);
                lemma_words_behind(line, word);
                if full.len() > 0 {
                    assert(words(line.push(' ') + word)[0] == words(line)[0]);
                }
            } else {
                let more = full.push(line);
                assert forall|k: int| 0 <= k < more.len() - 1 implies breaks_behind(
                    #[trigger] more[k],
                    more[k + 1],
                    width,
                ) by {
                    if k + 1 < full.len() {
                        assert(more[k] == full[k] && more[k + 1] == full[k + 1]);
                    } else {
                        assert(more[k] == full.last() && more[k + 1] == line);
                    }
                }
            }
        }
    }
}

proof fn lemma_filled_holds(para: Seq<char>, width: nat)
    ensures
        forall|k: int|
            0 <= k < filled(words(para), width).len() ==> holds_its_words(
                #[trigger] filled(words(para), width)[k],
                width,
            ),
        forall|k: int|
            0 <= k < filled(words(para), width).len() - 1 ==> breaks_behind(
                #[trigger] filled(words(para), width)[k],
                filled(words(para), width)[k + 1],
                width,
            ),
{
    let all = words(para);
    assert forall|i: int| 0 <= i < all.len() implies solid(#[trigger] all[i]) by {
        lemma_words_solid(para, i);
    }
    lemma_filling_holds(all, width, all.len());
    let (full, line) = filling(all, width, all.len());
    let lines = filled(all, width);
    assert forall|k: int| 0 <= k < lines.len() - 1 implies breaks_behind(
        #[trigger] lines[k],
        lines[k + 1],
        width,
    ) by {
        if k + 1 < full.len() {
            assert(lines[k] == full[k] && lines[k + 1] == full[k + 1]);
        } else {
            assert(lines[k] == full.last() && lines[k + 1] == line);
        }
    }
}

proof fn lemma_wrapped_holds(paras: Seq<Seq<char>>, width: nat, n: nat)
    requires
        n <= paras.len(),
    ensures
        forall|k: int|
            0 <= k < wrapped_to(paras, width, n).len() ==> holds_its_words(
                #[trigger] wrapped_to(paras, width, n)[k],
                width,
            ),
    decreases n,
{
    if n > 0 {
        lemma_wrapped_holds(paras, width, (n - 1) as nat);
        let before = wrapped_to(paras, width, (n - 1) as nat);
        let now = wrapped_to(paras, width, n);
        let para = paras[n - 1];
        lemma_filled_holds(para, width);
        let lines = filled(words(para), width);
        assert forall|k: int| 0 <= k < now.len() implies holds_its_words(
            #[trigger] now[k],
            width,
        ) by {
            if k < before.len() {
                assert(now[k] == before[k]);
            } else if !text::all_white(para) {
                assert(now[k] == lines[k - before.len()]);
            } else {
                assert(now[k] =~= Seq::<char>::empty());
            }
        }
    }
}

proof fn lemma_end_is_prefix(lines: Seq<Seq<char>>)
    ensures
        without_empty_end(lines).len() <= lines.len(),
        without_empty_end(lines) == lines.take(without_empty_end(lines).len() as int),
    decreases lines.len(),
{
    if lines.len() > 0 && lines.last().len() == 0 {
        lemma_end_is_prefix(lines.drop_last());
        assert(lines.drop_last().take(without_empty_end(lines).len() as int) =~= lines.take(
            without_empty_end(lines).len() as int,
        ));
    } else {
        assert(lines.take(lines.len() as int) =~= lines);
    }
}

/// Every line of wrapped text fits: it is its words with one blank between, and
/// each of them but the first fits behind those before it. So a line of more than
/// one word takes no more than `width` cells, as words and blanks are counted.
pub proof fn law_wrapped_lines_fit(text: Seq<char>, width: nat, i: int)
    requires
        0 <= i < wrapped(text, width).len(),
    ensures
        ({
            let line = wrapped(text, width)[i];
            let all = words(line);
            &&& line == joined(all)
            &&& forall|k: int|
                1 <= k < all.len() ==> text::text_width(joined(all.take(k))) + 1 + text::text_width(
                    #[trigger] all[k],
                ) <= width
        }),
{
    let paras = paragraphs(text);
    let lines = wrapped_to(paras, width, paras.len());
    lemma_wrapped_holds(paras, width, paras.len());
    lemma_end_is_prefix(lines);
    assert(wrapped(text, width)[i] == lines[i]);
    assert(holds_its_words(lines[i], width));
}

proof fn lemma_one_paragraph(text: Seq<char>)
    requires
        !text.contains('\n'),
    ensures
        paragraphs(text) == seq![text],
    decreases text.len(),
{
    if text.len() > 0 {
        let rest = text.drop_last();
        assert forall|k: int| 0 <= k < rest.len() implies rest[k] != '\n' by {
            assert(text[k] == rest[k]);
        }
        assert(text[text.len() - 1] != '\n');
        lemma_one_paragraph(rest);
        assert(rest.push(text.last()) =~= text);
        assert(paragraphs(text) =~= seq![text]);
    } else {
        assert(text =~= Seq::<char>::empty());
    }
}

/// A line of a paragraph ends only where the next word does not fit behind it,
/// and no line of it is empty.
pub proof fn law_lines_break_only_where_they_must(text: Seq<char>, width: nat, i: int)
    requires
        !text.contains('\n'),
        0 <= i < wrapped(text, width).len(),
    ensures
        words(wrapped(text, width)[i]).len() > 0,
        i < wrapped(text, width).len() - 1 ==> text::text_width(wrapped(text, width)[i]) + 1
            + text::text_width(words(wrapped(text, width)[i + 1])[0]) > width,
{
    lemma_one_paragraph(text);
    let paras = paragraphs(text);
    let lines = wrapped_to(paras, width, 1);
    lemma_end_is_prefix(lines);
    reveal_with_fuel(wrapped_to, 2);
    assert(paras.len() == 1 && paras[0] == text);
    if !text::all_white(text) {
        assert(lines =~= filled(words(text), width));
        lemma_filled(text, width);
        lemma_filled_holds(text, width);
        let line = wrapped(text, width)[i];
        assert(line == lines[i]);
        assert(holds_its_words(line, width));
        if words(line).len() == 0 {
            assert(joined(words(line)) =~= Seq::<char>::empty());
        }
        if i < wrapped(text, width).len() - 1 {
            assert(breaks_behind(lines[i], lines[i + 1], width));
        }
    }
}

/// Words are cut out of a text at its white space: none of them is empty or holds
/// any, and together they hold every other character, in order.
pub proof fn law_words_are_what_white_space_parts(text: Seq<char>)
    ensures
        forall|i: int|
            0 <= i < words(text).len() ==> (#[trigger] words(text)[i]).len() > 0 && forall|j: int|
                0 <= j < words(text)[i].len() ==> !text::is_white(#[trigger] words(text)[i][j]),
        words(text).flatten() == text.filter(|c: char| !text::is_white(c)),
        words(text).len() > 1 ==> exists|i: int|
            0 <= i < text.len() && text::is_white(#[trigger] text[i]),
    decreases text.len(),
{
    assert forall|i: int| 0 <= i < words(text).len() implies (#[trigger] words(text)[i]).len() > 0
        && forall|j: int|
        0 <= j < words(text)[i].len() ==> !text::is_white(#[trigger] words(text)[i][j]) by {
        lemma_words_solid(text, i);
    }
    lemma_words_flat(text);
    if forall|i: int| 0 <= i < text.len() ==> !text::is_white(#[trigger] text[i]) {
        if text.len() > 0 {
            lemma_words_of_word(text);
        }
    }
}

proof fn lemma_words_flat(text: Seq<char>)
    ensures
        words(text).flatten() == text.filter(|c: char| !text::is_white(c)),
    decreases text.len(),
{
    let pred = |c: char| !text::is_white(c);
    reveal(Seq::filter);
    if text.len() == 0 {
        assert(words(text) =~= Seq::<Seq<char>>::empty());
        assert(words(text).flatten() =~= Seq::<char>::empty());
    } else {
        let rest = text.drop_last();
        let before = words(rest);
        let c = text.last();
        lemma_words_flat(rest);
        lemma_words_exist(rest);
        if text::is_white(c) {
        } else if text.len() == 1 || text::is_white(text[text.len() - 2]) {
            before.lemma_flatten_push(seq![c]);
            assert(before.flatten() + seq![c] =~= before.flatten().push(c));
        } else {
            assert(rest.last() == text[text.len() - 2]);
            let head = before.drop_last();
            let word = before.last();
            head.lemma_flatten_push(word);
            head.lemma_flatten_push(word.push(c));
            assert(head.push(word) =~= before);
            assert(head.flatten() + word.push(c) =~= (head.flatten() + word).push(c));
        }
    }
}

proof fn lemma_fit_is_most(text: Seq<char>, avail: nat, m: int)
    requires
        0 <= m <= text.len(),
    ensures
        char_widths(text.take(m)) <= avail ==> m <= fit_len(text, avail),
        m <= fit_len(text, avail) ==> char_widths(text.take(m)) <= avail,
    decreases text.len(),
{
    assert(text.take(0) =~= Seq::<char>::empty());
    if m > 0 {
        let w = text::text_width(seq![text[0]]);
        let rest = text.drop_first();
        assert(text.take(m) =~= seq![text[0]] + rest.take(m - 1));
        lemma_char_widths_front(text[0], rest.take(m - 1));
        if w <= avail {
            lemma_fit_is_most(rest, (avail - w) as nat, m - 1);
        }
    }
}

proof fn lemma_last_blank_is(text: Seq<char>)
    ensures
        match last_blank(text) {
            Some(i) => 0 <= i < text.len() && text[i] == ' ' && forall|j: int|
                i < j < text.len() ==> text[j] != ' ',
            None => forall|j: int| 0 <= j < text.len() ==> text[j] != ' ',
        },
    decreases text.len(),
{
    if text.len() > 0 && text.last() != ' ' {
        let rest = text.drop_last();
        lemma_last_blank_is(rest);
        match last_blank(text) {
            Some(i) => {
                assert(text[i] == rest[i]);
                assert forall|j: int| i < j < text.len() implies text[j] != ' ' by {
                    if j < rest.len() {
                        assert(text[j] == rest[j]);
                    }
                }
            },
            None => {
                assert forall|j: int| 0 <= j < text.len() implies text[j] != ' ' by {
                    if j < rest.len() {
                        assert(text[j] == rest[j]);
                    }
                }
            },
        }
    }
}

/// The first `n` characters of `text` are a line of `avail` cells that ends as
/// late as it may: at a blank, behind which no other blank fits; without a
/// blank, at the last character that fits. A line has at least one character.
pub open spec fn is_longest_line(text: Seq<char>, n: int, avail: nat) -> bool {
    &&& 1 <= n <= text.len()
    &&& char_widths(text.take(n)) <= avail || n == 1
    &&& n == 1 || n == text.len() || text[n] == ' ' || char_widths(text.take(n + 1)) > avail
    &&& forall|j: int|
        n < j < text.len() && char_widths(#[trigger] text.take(j + 1)) <= avail ==> text[j] != ' '
    &&& n > 1 && n < text.len() && text[n] != ' ' ==> forall|j: int|
        0 <= j < n ==> text[j] != ' '
}

#[verifier::spinoff_prover]
#[verifier::rlimit(30)]
proof fn lemma_longest_line(text: Seq<char>, avail: nat)
    requires
        text.len() > 0,
    ensures
        is_longest_line(text, head_len(text, avail) as int, avail),
{
    let n = head_len(text, avail) as int;
    let fit = fit_len(text, avail) as int;
    lemma_head_len(text, avail);
    lemma_fit_len(text, avail);
    let start = text.take(fit);
    lemma_last_blank_is(start);
    assert forall|j: int|
        n < j < text.len() && char_widths(#[trigger] text.take(j + 1)) <= avail implies text[j]
        != ' ' by {
        lemma_fit_is_most(text, avail, j + 1);
        assert(text[j] == start[j]);
    }
    match last_blank(start) {
        Some(blank) => {
            assert(text[blank] == start[blank]);
        },
        None => {
            if fit < text.len() {
                lemma_fit_is_most(text, avail, fit + 1);
            }
            assert forall|j: int| 0 <= j < n && n > 1 implies text[j] != ' ' by {
                assert(text[j] == start[j]);
            }
        },
    }
}

/// Prose is broken only where it does not fit, and then as late as it may be: a
/// line ends at the last blank that fits, and the next one starts behind the
/// white space there. The last line that is allowed for holds all the rest, cut
/// where it does not fit.
pub proof fn law_prose_is_broken_as_late_as_it_may_be(
    prose: Seq<char>,
    from: nat,
    k: nat,
    first: nat,
    rest: nat,
    max_lines: nat,
)
    requires
        from < prose.len(),
        k < max_lines,
    ensures
        ({
            let lines = prose_lines(prose, from, k, first, rest, max_lines);
            let avail = if k == 0 {
                first
            } else {
                rest
            };
            let left = prose.skip(from as int);
            let fits = text::text_width(left) <= avail;
            &&& lines.len() > 0
            &&& lines[0].start == text::byte_len(prose.take(from as int))
            &&& fits ==> lines.len() == 1 && lines[0].text == left
            &&& !fits && k + 1 == max_lines ==> lines.len() == 1 && lines[0].text
                == text::truncated(left, avail)
            &&& !fits && k + 1 < max_lines ==> {
                let n = lines[0].text.len() as int;
                &&& is_longest_line(left, n, avail)
                &&& lines[0].text == left.take(n)
                &&& exists|next: int|
                    from + n <= next <= prose.len() && text::all_white(
                        prose.subrange(from + n, next),
                    ) && (next < prose.len() ==> !text::is_white(prose[next]))
                        && lines.drop_first() == #[trigger] prose_lines(
                        prose,
                        next as nat,
                        k + 1,
                        first,
                        rest,
                        max_lines,
                    )
            }
        }),
{
    let lines = prose_lines(prose, from, k, first, rest, max_lines);
    let avail = if k == 0 {
        first
    } else {
        rest
    };
    let left = prose.skip(from as int);
    if text::text_width(left) > avail && k + 1 < max_lines {
        lemma_longest_line(left, avail);
        let n = head_len(left, avail) as int;
        let behind = left.skip(n);
        text::lemma_white_prefix_is(behind);
        let next = from + n + text::white_prefix(behind);
        assert(lines.drop_first() =~= prose_lines(
            prose,
            next as nat,
            k + 1,
            first,
            rest,
            max_lines,
        ));
        let gap = prose.subrange(from + n, next);
        assert forall|i: int| 0 <= i < gap.len() implies text::is_white(#[trigger] gap[i]) by {
            assert(gap[i] == behind[i]);
        }
        if next < prose.len() {
            assert(prose[next] == behind[text::white_prefix(behind) as int]);
        }
    }
}

/// Wrapped prose starts with the start of the prose; no prose is one empty line.
pub proof fn law_wrapped_prose_starts_with_its_start(
    prose: Seq<char>,
    first: nat,
    rest: nat,
    max_lines: nat,
)
    requires
        max_lines > 0,
    ensures
        prose.len() > 0 ==> wrapped_prose(prose, first, rest, max_lines) == prose_lines(
            prose,
            0,
            0,
            first,
            rest,
            max_lines,
        ),
        prose.len() == 0 ==> {
            let lines = wrapped_prose(prose, first, rest, max_lines);
            lines.len() == 1 && lines[0].text.len() == 0 && lines[0].start == 0
        },
{
    if prose.len() > 0 {
        law_prose_is_broken_as_late_as_it_may_be(prose, 0, 0, first, rest, max_lines);
    }
}

/// The first line of a text ends before its first line feed.
pub proof fn law_the_first_line_ends_at_the_first_feed(text: Seq<char>)
    ensures
        first_line(text).len() <= text.len(),
        first_line(text) == text.take(first_line(text).len() as int),
        forall|i: int| 0 <= i < first_line(text).len() ==> first_line(text)[i] != '\n',
        first_line(text).len() < text.len() ==> text[first_line(text).len() as int] == '\n',
    decreases text.len(),
{
    if text.len() > 0 && text[0] != '\n' {
        let rest = text.drop_first();
        law_the_first_line_ends_at_the_first_feed(rest);
        let n = first_line(rest).len() as int;
        assert(first_line(text) =~= text.take(n + 1));
        if n < rest.len() {
            assert(text[n + 1] == rest[n]);
        }
        assert forall|i: int| 0 <= i < first_line(text).len() implies first_line(text)[i]
            != '\n' by {
            if i > 0 {
                assert(first_line(text)[i] == first_line(rest)[i - 1]);
            }
        }
    } else {
        assert(first_line(text) =~= text.take(0));
    }
}

proof fn lemma_trim_again(text: Seq<char>)
    ensures
        text::trim(text::trim(text)) == text::trim(text),
{
    text::law_trimming_takes_white_space_off_the_ends(text);
    let once = text::trim(text);
    let (from, to) = choose|from: int, to: int| #[trigger]
        text::is_trimmed_to(text, from, to) && text::trim(text) == text.subrange(from, to);
    if once.len() > 0 {
        assert(once[0] == text[from] && once.last() == text[to - 1]);
        text::lemma_white_prefix(once, 0);
        assert(text::trim_start(once) =~= once);
        text::lemma_white_suffix(once, 0);
        assert(text::trim(once) =~= once);
    } else {
        assert(text::trim(once) =~= once);
    }
}

/// A query is the first line of its prompt without the white space around it.
/// Of a line of more than thirty characters it is the words that end within
/// them, or the thirty where no blank is among them. What has fewer than eight
/// characters is no query.
pub proof fn law_queries_are_the_words_that_fit(head: Seq<char>, cut: int)
    requires
        0 <= cut <= 30,
        ({
            let line = text::trim(first_line(head));
            line.len() > 30 ==> {
                ||| cut < 30 && line[cut] == ' ' && forall|j: int|
                    cut < j < 30 ==> line[j] != ' '
                ||| cut == 30 && forall|j: int| 0 <= j < 30 ==> line[j] != ' '
            }
        }),
    ensures
        ({
            let line = text::trim(first_line(head));
            let query = if line.len() <= 30 {
                line
            } else {
                text::trim(line.take(cut))
            };
            query_of(head) == if query.len() >= 8 {
                Some(query)
            } else {
                None
            }
        }),
{
    let line = text::trim(first_line(head));
    if line.len() <= 30 {
        lemma_trim_again(first_line(head));
    } else {
        let start = line.take(30);
        lemma_last_blank_is(start);
        if cut < 30 {
            assert(start[cut] == ' ');
            lemma_last_blank(start, cut + 1);
            assert(start.take(cut) =~= line.take(cut));
        } else {
            lemma_last_blank(start, 0);
        }
    }
}

/// A line is tinted where the tint begins on it or before it.
pub proof fn law_a_line_is_tinted_where_the_tint_reaches_it(line: ProseLine, tint_start: usize)
    requires
        line.start + text::byte_len(line.text) <= usize::MAX,
    ensures
        tint_in(line, None) is None,
        tint_start >= line.start + text::byte_len(line.text) ==> tint_in(
            line,
            Some(tint_start),
        ) is None,
        tint_start <= line.start && text::byte_len(line.text) > 0 ==> tint_in(
            line,
            Some(tint_start),
        ) == Some(0usize),
        line.start <= tint_start < line.start + text::byte_len(line.text) && is_char_boundary(
            encode_utf8(line.text),
            tint_start - line.start,
        ) ==> tint_in(line, Some(tint_start)) == Some((tint_start - line.start) as usize),
{
    encode_utf8_valid_utf8(line.text);
    is_char_boundary_start_end_of_seq(encode_utf8(line.text));
}

proof fn lemma_paragraphs_behind(a: Seq<char>, b: Seq<char>)
    ensures
        paragraphs(a + seq!['\n'] + b) == paragraphs(a) + paragraphs(b),
    decreases b.len(),
{
    let all = a + seq!['\n'] + b;
    if b.len() == 0 {
        assert(all =~= a.push('\n'));
        assert(all.drop_last() =~= a);
        assert(paragraphs(all) =~= paragraphs(a) + paragraphs(b));
    } else {
        let rest = b.drop_last();
        lemma_paragraphs_behind(a, rest);
        lemma_paragraph_words(rest);
        assert(all.drop_last() =~= a + seq!['\n'] + rest);
        assert(all.last() == b.last());
        assert(paragraphs(all) =~= paragraphs(a) + paragraphs(b));
    }
}

proof fn lemma_wrapped_prefix(paras: Seq<Seq<char>>, more: Seq<Seq<char>>, width: nat, n: nat)
    requires
        n <= paras.len(),
    ensures
        wrapped_to(paras + more, width, n) == wrapped_to(paras, width, n),
    decreases n,
{
    if n > 0 {
        lemma_wrapped_prefix(paras, more, width, (n - 1) as nat);
        assert((paras + more)[n - 1] == paras[n - 1]);
    }
}

/// A line feed starts a new line, and blank lines between two paragraphs become
/// one: a paragraph `b` that follows `text` is wrapped for itself, and one empty
/// line stands between where `text` ends with a blank line.
#[verifier::spinoff_prover]
#[verifier::rlimit(30)]
pub proof fn law_paragraphs_are_wrapped_for_themselves(text: Seq<char>, b: Seq<char>, width: nat)
    requires
        !b.contains('\n'),
        !text::all_white(b),
    ensures
        ({
            let whole = wrapped(text + seq!['\n'] + b, width);
            let last = paragraphs(text).last();
            &&& wrapped(text, width).len() == 0 ==> whole == wrapped(b, width)
            &&& !text::all_white(last) ==> whole == wrapped(text, width) + wrapped(b, width)
            &&& text::all_white(last) && wrapped(text, width).len() > 0 ==> whole == wrapped(
                text,
                width,
            ) + seq![Seq::<char>::empty()] + wrapped(b, width)
        }),
{
    let paras = paragraphs(text);
    let all = paragraphs(text + seq!['\n'] + b);
    let n = paras.len();
    lemma_paragraphs_behind(text, b);
    lemma_one_paragraph(b);
    lemma_paragraph_words(text);
    lemma_wrapped_prefix(paras, seq![b], width, n);
    assert(all == paras + seq![b]);
    assert(all[n as int] == b);
    let before = wrapped_to(paras, width, n);
    let mine = filled(words(b), width);
    lemma_filled(b, width);
    lemma_wrapped_to(paras, width, n);
    assert(wrapped_to(all, width, n + 1) == before + mine);
    assert((before + mine).last() == mine.last());
    assert(wrapped(text + seq!['\n'] + b, width) == before + mine);
    assert(wrapped(b, width) == mine) by {
        reveal_with_fuel(wrapped_to, 2);
        assert(seq![b][0] == b);
        assert(wrapped_to(seq![b], width, 1) =~= mine);
    }
    if before.len() > 0 && before.last().len() == 0 {
        let rest = before.drop_last();
        if rest.len() > 0 && rest.last().len() == 0 {
            assert(before[before.len() - 2].len() > 0 || before[before.len() - 1].len() > 0);
        }
        reveal_with_fuel(without_empty_end, 3);
        assert(wrapped(text, width) == rest);
        assert(before.last() =~= Seq::<char>::empty());
        assert(before =~= rest + seq![Seq::<char>::empty()]);
        if rest.len() == 0 {
            assert(before[0].len() > 0);
        }
        if !text::all_white(paras.last()) {
            lemma_filled(paras.last(), width);
            let lines = filled(words(paras.last()), width);
            assert(before.last() == lines.last());
        }
    } else {
        assert(wrapped(text, width) == before);
        if before.len() == 0 {
            assert(before + mine =~= mine);
            if !text::all_white(paras.last()) {
                lemma_filled(paras.last(), width);
            }
        } else if text::all_white(paras.last()) {
            let above = wrapped_to(paras, width, (n - 1) as nat);
            assert(before == above || before == above.push(Seq::<char>::empty()));
            if above.len() > 0 && above.last().len() > 0 {
                assert(before.last().len() == 0);
            }
        }
    }
}

} // verus!
