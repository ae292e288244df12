//! Cutting text into lines, words and fields.

use vstd::prelude::*;

use crate::text;

verus! {

/// A character of the Unicode property White_Space.
pub open spec fn is_space(c: char) -> bool {
    ||| '\u{9}' <= c <= '\u{d}'
    ||| c == ' '
    ||| c == '\u{85}'
    ||| c == '\u{a0}'
    ||| c == '\u{1680}'
    ||| '\u{2000}' <= c <= '\u{200a}'
    ||| c == '\u{2028}'
    ||| c == '\u{2029}'
    ||| c == '\u{202f}'
    ||| c == '\u{205f}'
    ||| c == '\u{3000}'
}

/// The first position at or behind `from` at which `stop` holds; the length
/// of the text where there is none.
pub open spec fn find(text: Seq<char>, from: int, stop: spec_fn(char) -> bool) -> int
    decreases text.len() - from,
{
    if from >= text.len() {
        text.len() as int
    } else if stop(text[from]) {
        from
    } else {
        find(text, from + 1, stop)
    }
}

/// The test for one character.
pub open spec fn exactly(c: char) -> spec_fn(char) -> bool {
    |x: char| x == c
}

/// The test for white space, or for its absence.
pub open spec fn space(wanted: bool) -> spec_fn(char) -> bool {
    |x: char| is_space(x) == wanted
}

/// What `find` finds: it skips nothing that stops it.
pub proof fn find_is_first(text: Seq<char>, from: int, stop: spec_fn(char) -> bool)
    requires
        0 <= from <= text.len(),
    ensures
        from <= find(text, from, stop) <= text.len(),
        forall|i: int| from <= i < find(text, from, stop) ==> !stop(#[trigger] text[i]),
        find(text, from, stop) < text.len() ==> stop(text[find(text, from, stop)]),
    decreases text.len() - from,
{
    if from < text.len() && !stop(text[from]) {
        find_is_first(text, from + 1, stop);
    }
}

/// A position before which nothing stops the search, and at which something
/// does, is the one that `find` gives.
pub proof fn find_is_here(text: Seq<char>, from: int, stop: spec_fn(char) -> bool, here: int)
    requires
        0 <= from <= here <= text.len(),
        forall|i: int| from <= i < here ==> !stop(#[trigger] text[i]),
        here < text.len() ==> stop(text[here]),
    ensures
        find(text, from, stop) == here,
    decreases here - from,
{
    if from < here {
        assert(!stop(text[from]));
        find_is_here(text, from + 1, stop, here);
    }
}

/// `line` without the carriage return at its end, if it has one.
pub open spec fn without_return(line: Seq<char>) -> Seq<char> {
    if line.len() > 0 && line.last() == '\r' {
        line.drop_last()
    } else {
        line
    }
}

/// The lines of `text` from `from` on.  A line ends at a line feed, and a
/// carriage return right before the line feed belongs to the line ending;
/// the last line needs no ending.
pub open spec fn lines_from(text: Seq<char>, from: int) -> Seq<Seq<char>>
    decreases text.len() - from,
    when 0 <= from
    via lines_from_ends
{
    let end = find(text, from, exactly('\n'));
    if from >= text.len() {
        Seq::empty()
    } else if end >= text.len() {
        seq![text.subrange(from, text.len() as int)]
    } else {
        seq![without_return(text.subrange(from, end))] + lines_from(text, end + 1)
    }
}

#[via_fn]
proof fn lines_from_ends(text: Seq<char>, from: int) {
    if from < text.len() {
        find_is_first(text, from, exactly('\n'));
    }
}

/// The lines of `text`.
pub open spec fn lines(text: Seq<char>) -> Seq<Seq<char>> {
    lines_from(text, 0)
}

/// The words of `text` from `from` on: the longest stretches without white
/// space.
pub open spec fn words_from(text: Seq<char>, from: int) -> Seq<Seq<char>>
    decreases text.len() - from,
    when 0 <= from <= text.len()
    via words_from_ends
{
    let start = find(text, from, space(false));
    let end = find(text, start, space(true));
    if start >= text.len() {
        Seq::empty()
    } else {
        seq![text.subrange(start, end)] + words_from(text, end)
    }
}

#[via_fn]
proof fn words_from_ends(text: Seq<char>, from: int) {
    find_is_first(text, from, space(false));
    let start = find(text, from, space(false));
    if start < text.len() {
        find_is_first(text, start, space(true));
        assert(!is_space(text[start]));
        let end = find(text, start, space(true));
        if end == start {
            assert(space(true)(text[end]));
        }
    }
}

/// The words of `text`.
pub open spec fn words(text: Seq<char>) -> Seq<Seq<char>> {
    words_from(text, 0)
}

/// The fields of `text` from `from` on that `mark` sets apart.
pub open spec fn fields_from(text: Seq<char>, mark: char, from: int) -> Seq<Seq<char>>
    decreases text.len() - from,
    when 0 <= from <= text.len()
    via fields_from_ends
{
    let end = find(text, from, exactly(mark));
    if end >= text.len() {
        seq![text.subrange(from, text.len() as int)]
    } else {
        seq![text.subrange(from, end)] + fields_from(text, mark, end + 1)
    }
}

#[via_fn]
proof fn fields_from_ends(text: Seq<char>, mark: char, from: int) {
    find_is_first(text, from, exactly(mark));
}

/// The fields of `text` that `mark` sets apart.
pub open spec fn fields(text: Seq<char>, mark: char) -> Seq<Seq<char>> {
    fields_from(text, mark, 0)
}

/// The position behind the last character of `text` that is no white space.
pub open spec fn trimmed_end(text: Seq<char>) -> int
    decreases text.len(),
{
    if text.len() == 0 {
        0
    } else if is_space(text.last()) {
        trimmed_end(text.drop_last())
    } else {
        text.len() as int
    }
}

/// `text` without the white space at its two ends.
pub open spec fn trimmed(text: Seq<char>) -> Seq<char> {
    let front = text.take(trimmed_end(text));
    front.skip(find(front, 0, space(false)))
}

/// Whether `c` is white space.
pub fn is_space_char(c: char) -> (yes: bool)
    ensures
        yes == is_space(c),
{
    ('\u{9}' <= c && c <= '\u{d}') || c == ' ' || c == '\u{85}' || c == '\u{a0}' || c == '\u{1680}'
        || ('\u{2000}' <= c && c <= '\u{200a}') || c == '\u{2028}' || c == '\u{2029}' || c
        == '\u{202f}' || c == '\u{205f}' || c == '\u{3000}'
}

/// The first position at or behind `from` that holds `c`.
pub fn find_char(text: &Vec<char>, from: usize, c: char) -> (at: usize)
    requires
        from <= text@.len(),
    ensures
        at == find(text@, from as int, exactly(c)),
        from <= at <= text@.len(),
        at < text@.len() ==> text@[at as int] == c,
{
    let mut at: usize = from;
    while at < text.len() && text[at] != c
        invariant
            from <= at <= text@.len(),
            forall|i: int| from <= i < at ==> text@[i] != c,
        decreases text@.len() - at,
    {
        at += 1;
    }
    proof {
        find_is_here(text@, from as int, exactly(c), at as int);
    }
    at
}

/// The first position at or behind `from` that holds white space, or, where
/// `wanted` is false, anything else.
pub fn find_space(text: &Vec<char>, from: usize, wanted: bool) -> (at: usize)
    requires
        from <= text@.len(),
    ensures
        at == find(text@, from as int, space(wanted)),
        from <= at <= text@.len(),
        at < text@.len() ==> is_space(text@[at as int]) == wanted,
{
    let mut at: usize = from;
    while at < text.len() && is_space_char(text[at]) != wanted
        invariant
            from <= at <= text@.len(),
            forall|i: int| from <= i < at ==> is_space(#[trigger] text@[i]) != wanted,
        decreases text@.len() - at,
    {
        at += 1;
    }
    proof {
        find_is_here(text@, from as int, space(wanted), at as int);
    }
    at
}

/// The characters from `from` up to `to`.
pub fn slice_of(text: &Vec<char>, from: usize, to: usize) -> (part: Vec<char>)
    requires
        from <= to <= text@.len(),
    ensures
        part@ == text@.subrange(from as int, to as int),
{
    let mut part: Vec<char> = Vec::new();
    let mut i: usize = from;
    while i < to
        invariant
            from <= i <= to <= text@.len(),
            part@ == text@.subrange(from as int, i as int),
        decreases to - i,
    {
        part.push(text[i]);
        assert(text@.subrange(from as int, i as int).push(text@[i as int]) =~= text@.subrange(
            from as int,
            i + 1,
        ));
        i += 1;
    }
    part
}

/// The lines of `text`.
pub fn lines_of(text: &Vec<char>) -> (result: Vec<Vec<char>>)
    ensures
        text::rows(result@) == lines(text@),
{
    let mut result: Vec<Vec<char>> = Vec::new();
    let mut from: usize = 0;
    while from < text.len()
        invariant
            from <= text@.len(),
            text::rows(result@) + lines_from(text@, from as int) == lines(text@),
        decreases text@.len() - from,
    {
        let end = find_char(text, from, '\n');
        let ghost before = text::rows(result@);
        if end >= text.len() {
            let line = slice_of(text, from, text.len());
            result.push(line);
            proof {
                assert(text::rows(result@) =~= before.push(line@));
                assert(text::rows(result@) =~= lines(text@));
                assert(lines_from(text@, text@.len() as int) =~= Seq::empty());
                assert(text::rows(result@) + lines_from(text@, text@.len() as int) =~= text::rows(result@));
            }
            from = text.len();
        } else {
            let mut stop: usize = end;
            if end > from && text[end - 1] == '\r' {
                stop = end - 1;
            }
            let line = slice_of(text, from, stop);
            result.push(line);
            proof {
                let whole = text@.subrange(from as int, end as int);
                if end > from {
                    assert(whole.last() == text@[end - 1]);
                    assert(whole.drop_last() =~= text@.subrange(from as int, end - 1));
                }
                assert(line@ == without_return(whole));
                assert(text::rows(result@) =~= before.push(line@));
                assert(text::rows(result@) + lines_from(text@, end + 1) =~= before + lines_from(
                    text@,
                    from as int,
                ));
            }
            from = end + 1;
        }
    }
    assert(text::rows(result@) + lines_from(text@, from as int) =~= text::rows(result@));
    result
}

/// The words of `text`.
pub fn words_of(text: &Vec<char>) -> (result: Vec<Vec<char>>)
    ensures
        text::rows(result@) == words(text@),
{
    let mut result: Vec<Vec<char>> = Vec::new();
    let mut from: usize = 0;
    loop
        invariant
            from <= text@.len(),
            text::rows(result@) + words_from(text@, from as int) == words(text@),
        ensures
            text::rows(result@) == words(text@),
        decreases text@.len() - from,
    {
        let start = find_space(text, from, false);
        if start >= text.len() {
            assert(text::rows(result@) + words_from(text@, from as int) =~= text::rows(result@));
            break;
        }
        let end = find_space(text, start, true);
        let word = slice_of(text, start, end);
        let ghost before = text::rows(result@);
        result.push(word);
        proof {
            assert(text::rows(result@) =~= before.push(word@));
            assert(text::rows(result@) + words_from(text@, end as int) =~= before + words_from(
                text@,
                from as int,
            ));
        }
        from = end;
    }
    result
}

/// The fields of `text` that `mark` sets apart.
pub fn fields_of(text: &Vec<char>, mark: char) -> (result: Vec<Vec<char>>)
    ensures
        text::rows(result@) == fields(text@, mark),
{
    let mut result: Vec<Vec<char>> = Vec::new();
    let mut from: usize = 0;
    loop
        invariant_except_break
            from <= text@.len(),
            text::rows(result@) + fields_from(text@, mark, from as int) == fields(text@, mark),
        ensures
            text::rows(result@) == fields(text@, mark),
        decreases text@.len() - from,
    {
        let end = find_char(text, from, mark);
        let field = slice_of(text, from, end);
        let ghost before = text::rows(result@);
        result.push(field);
        assert(text::rows(result@) =~= before.push(field@));
        if end >= text.len() {
            assert(text::rows(result@) =~= before + fields_from(text@, mark, from as int));
            break;
        }
        proof {
            assert(text::rows(result@) + fields_from(text@, mark, end + 1) =~= before + fields_from(
                text@,
                mark,
                from as int,
            ));
        }
        from = end + 1;
    }
    result
}

/// `text` without the white space at its two ends.
pub fn trim(text: &Vec<char>) -> (result: Vec<char>)
    ensures
        result@ == trimmed(text@),
{
    let mut end: usize = text.len();
    assert(text@.take(end as int) =~= text@);
    while end > 0 && is_space_char(text[end - 1])
        invariant
            end <= text@.len(),
            trimmed_end(text@.take(end as int)) == trimmed_end(text@),
        decreases end,
    {
        assert(text@.take(end as int).drop_last() =~= text@.take(end - 1));
        end -= 1;
    }
    let front = slice_of(text, 0, end);
    assert(front@ =~= text@.take(end as int));
    let start = find_space(&front, 0, false);
    let result = slice_of(&front, start, front.len());
    assert(result@ =~= front@.skip(start as int));
    result
}

proof fn last_field(text: Seq<char>, mark: char, from: int)
    requires
        0 <= from <= text.len(),
        forall|i: int| from <= i < text.len() ==> text[i] != mark,
    ensures
        fields_from(text, mark, from) == seq![text.subrange(from, text.len() as int)],
{
    find_is_here(text, from, exactly(mark), text.len() as int);
}

proof fn fields_of_longer(head: Seq<char>, mark: char, last: Seq<char>, from: int)
    requires
        0 <= from <= head.len(),
        !last.contains(mark),
    ensures
        fields_from(head + seq![mark] + last, mark, from) == fields_from(head, mark, from).push(last),
    decreases head.len() - from,
{
    let whole = head + seq![mark] + last;
    let stop = exactly(mark);
    let end = find(head, from, stop);
    find_is_first(head, from, stop);
    assert forall|i: int| from <= i < end implies !stop(#[trigger] whole[i]) by {
        assert(whole[i] == head[i]);
        assert(!stop(head[i]));
    }
    if end < head.len() {
        assert(whole[end] == head[end]);
        find_is_here(whole, from, stop, end);
        fields_of_longer(head, mark, last, end + 1);
        assert(whole.subrange(from, end) =~= head.subrange(from, end));
        assert(seq![head.subrange(from, end)] + fields_from(head, mark, end + 1).push(last) =~= (
        seq![head.subrange(from, end)] + fields_from(head, mark, end + 1)).push(last));
    } else {
        assert(whole[end] == mark);
        find_is_here(whole, from, stop, end);
        assert(whole.subrange(from, end) =~= head.subrange(from, head.len() as int));
        assert forall|i: int| end + 1 <= i < whole.len() implies whole[i] != mark by {
            assert(last.contains(last[i - end - 1]));
            assert(whole[i] == last[i - end - 1]);
        }
        last_field(whole, mark, end + 1);
        assert(whole.subrange(end + 1, whole.len() as int) =~= last);
        assert(seq![head.subrange(from, head.len() as int)] + seq![last] =~= seq![
            head.subrange(from, head.len() as int),
        ].push(last));
    }
}

/// A text without the mark is one field.
pub proof fn one_field(text: Seq<char>, mark: char)
    requires
        !text.contains(mark),
    ensures
        fields(text, mark) == seq![text],
{
    assert forall|i: int| 0 <= i < text.len() implies text[i] != mark by {
        assert(text.contains(text[i]));
    }
    last_field(text, mark, 0);
    assert(text.subrange(0, text.len() as int) =~= text);
}

/// What follows the last mark is the last field.
pub proof fn one_more_field(text: Seq<char>, mark: char, last: Seq<char>)
    requires
        !last.contains(mark),
    ensures
        fields(text + seq![mark] + last, mark) == fields(text, mark).push(last),
{
    fields_of_longer(text, mark, last, 0);
}

proof fn find_moves_along(front: Seq<char>, text: Seq<char>, from: int, stop: spec_fn(char) -> bool)
    requires
        0 <= from <= text.len(),
    ensures
        find(front + text, front.len() + from, stop) == front.len() + find(text, from, stop),
    decreases text.len() - from,
{
    if from < text.len() {
        assert((front + text)[front.len() + from] == text[from]);
        find_moves_along(front, text, from + 1, stop);
    }
}

proof fn words_move_along(front: Seq<char>, text: Seq<char>, from: int)
    requires
        0 <= from <= text.len(),
    ensures
        words_from(front + text, front.len() + from) == words_from(text, from),
    decreases text.len() - from,
{
    let whole = front + text;
    let start = find(text, from, space(false));
    find_is_first(text, from, space(false));
    find_moves_along(front, text, from, space(false));
    if start < text.len() {
        let end = find(text, start, space(true));
        find_is_first(text, start, space(true));
        find_moves_along(front, text, start, space(true));
        assert(space(false)(text[start]));
        if end == start {
            assert(space(true)(text[end]));
        }
        words_move_along(front, text, end);
        assert(whole.subrange(front.len() + start, front.len() + end) =~= text.subrange(start, end));
    }
}

proof fn words_after_space(text: Seq<char>, from: int, to: int)
    requires
        0 <= from <= to <= text.len(),
        forall|i: int| from <= i < to ==> is_space(#[trigger] text[i]),
    ensures
        words_from(text, from) == words_from(text, to),
{
    let start = find(text, to, space(false));
    find_is_first(text, to, space(false));
    assert forall|i: int| from <= i < start implies !space(false)(#[trigger] text[i]) by {
        if i < to {
            assert(is_space(text[i]));
        }
    }
    find_is_here(text, from, space(false), start);
}

proof fn words_before_space(a: Seq<char>, c: char, b: Seq<char>, from: int)
    requires
        0 <= from <= a.len(),
        is_space(c),
    ensures
        words_from(a + seq![c] + b, from) == words_from(a, from) + words(b),
    decreases a.len() - from,
{
    let whole = a + seq![c] + b;
    let start = find(a, from, space(false));
    find_is_first(a, from, space(false));
    if start >= a.len() {
        assert forall|i: int| from <= i < a.len() + 1 implies is_space(#[trigger] whole[i]) by {
            if i < a.len() {
                assert(whole[i] == a[i]);
                assert(!space(false)(a[i]));
            }
        }
        words_after_space(whole, from, a.len() as int + 1);
        assert(whole =~= (a + seq![c]) + b);
        words_move_along(a + seq![c], b, 0);
        assert(words_from(a, from) + words(b) =~= words(b));
    } else {
        let end = find(a, start, space(true));
        find_is_first(a, start, space(true));
        assert forall|i: int| from <= i < start implies !space(false)(#[trigger] whole[i]) by {
            assert(whole[i] == a[i]);
            assert(!space(false)(a[i]));
        }
        assert(whole[start] == a[start]);
        find_is_here(whole, from, space(false), start);
        assert forall|i: int| start <= i < end implies !space(true)(#[trigger] whole[i]) by {
            assert(whole[i] == a[i]);
            assert(!space(true)(a[i]));
        }
        assert(space(true)(whole[end])) by {
            if end < a.len() {
                assert(whole[end] == a[end]);
            }
        }
        find_is_here(whole, start, space(true), end);
        assert(space(false)(a[start]));
        if end == start {
            assert(space(true)(a[end]));
        }
        words_before_space(a, c, b, end);
        assert(whole.subrange(start, end) =~= a.subrange(start, end));
        assert(words_from(whole, from) =~= words_from(a, from) + words(b));
    }
}

/// White space sets words apart: the words of a text are those before any
/// white space in it and those behind.
pub proof fn space_sets_words_apart(a: Seq<char>, c: char, b: Seq<char>)
    requires
        is_space(c),
    ensures
        words(a + seq![c] + b) == words(a) + words(b),
{
    words_before_space(a, c, b, 0);
}

/// A text without white space is one word.
pub proof fn one_word(word: Seq<char>)
    requires
        word.len() > 0,
        forall|i: int| 0 <= i < word.len() ==> !is_space(#[trigger] word[i]),
    ensures
        words(word) == seq![word],
{
    assert(space(false)(word[0]));
    find_is_here(word, 0, space(false), 0);
    assert forall|i: int| 0 <= i < word.len() implies !space(true)(#[trigger] word[i]) by {
        assert(!is_space(word[i]));
    }
    find_is_here(word, 0, space(true), word.len() as int);
    assert(words_from(word, word.len() as int) =~= Seq::empty());
    assert(word.subrange(0, word.len() as int) =~= word);
    assert(words(word) =~= seq![word]);
}

/// White space alone has no words.
pub proof fn no_words_in_space(text: Seq<char>)
    requires
        forall|i: int| 0 <= i < text.len() ==> is_space(#[trigger] text[i]),
    ensures
        words(text) == Seq::<Seq<char>>::empty(),
{
    words_after_space(text, 0, text.len() as int);
    assert(words_from(text, text.len() as int) =~= Seq::empty());
}

proof fn lines_move_along(front: Seq<char>, text: Seq<char>, from: int)
    requires
        0 <= from <= text.len(),
    ensures
        lines_from(front + text, front.len() + from) == lines_from(text, from),
    decreases text.len() - from,
{
    let whole = front + text;
    if from < text.len() {
        let end = find(text, from, exactly('\n'));
        find_is_first(text, from, exactly('\n'));
        find_moves_along(front, text, from, exactly('\n'));
        if end < text.len() {
            lines_move_along(front, text, end + 1);
            assert(whole.subrange(front.len() + from, front.len() + end) =~= text.subrange(
                from,
                end,
            ));
        } else {
            assert(whole.subrange(front.len() + from, whole.len() as int) =~= text.subrange(
                from,
                text.len() as int,
            ));
        }
    }
}

/// A line feed sets lines apart: what is before the first one is a line, but
/// for a carriage return right before it, and what is behind has the others.
pub proof fn line_feeds_set_lines_apart(line: Seq<char>, rest: Seq<char>)
    requires
        !line.contains('\n'),
    ensures
        lines(line + seq!['\n'] + rest) == seq![
            if line.len() > 0 && line.last() == '\r' {
                line.drop_last()
            } else {
                line
            },
        ] + lines(rest),
{
    let whole = line + seq!['\n'] + rest;
    let end = line.len() as int;
    assert forall|i: int| 0 <= i < end implies !exactly('\n')(#[trigger] whole[i]) by {
        assert(whole[i] == line[i]);
        assert(line.contains(line[i]));
    }
    assert(whole[end] == '\n');
    find_is_here(whole, 0, exactly('\n'), end);
    assert(whole.subrange(0, end) =~= line);
    assert(whole =~= (line + seq!['\n']) + rest);
    lines_move_along(line + seq!['\n'], rest, 0);
}

/// What has no line feed behind it is a line, if there is anything.
pub proof fn last_lines_need_no_end(line: Seq<char>)
    requires
        !line.contains('\n'),
    ensures
        lines(line) == (if line.len() == 0 {
            Seq::empty()
        } else {
            seq![line]
        }),
{
    if line.len() > 0 {
        assert forall|i: int| 0 <= i < line.len() implies !exactly('\n')(#[trigger] line[i]) by {
            assert(line.contains(line[i]));
        }
        find_is_here(line, 0, exactly('\n'), line.len() as int);
        assert(line.subrange(0, line.len() as int) =~= line);
    }
}

proof fn space_at_the_end_goes(text: Seq<char>, back: Seq<char>)
    requires
        forall|i: int| 0 <= i < back.len() ==> is_space(#[trigger] back[i]),
    ensures
        trimmed_end(text + back) == trimmed_end(text),
    decreases back.len(),
{
    if back.len() > 0 {
        assert(is_space(back[back.len() - 1]));
        let less = back.drop_last();
        assert forall|i: int| 0 <= i < less.len() implies is_space(#[trigger] less[i]) by {
            assert(is_space(back[i]));
        }
        space_at_the_end_goes(text, less);
        assert((text + back).drop_last() =~= text + less);
    } else {
        assert(text + back =~= text);
    }
}

/// Trimming takes away the white space around a text, and nothing of the text.
pub proof fn trimming_takes_space_only(front: Seq<char>, inner: Seq<char>, back: Seq<char>)
    requires
        forall|i: int| 0 <= i < front.len() ==> is_space(#[trigger] front[i]),
        forall|i: int| 0 <= i < back.len() ==> is_space(#[trigger] back[i]),
        inner.len() > 0 ==> !is_space(inner[0]) && !is_space(inner.last()),
    ensures
        trimmed(front + inner + back) == inner,
{
    let whole = front + inner + back;
    if inner.len() == 0 {
        let all = front + back;
        assert(whole =~= Seq::<char>::empty() + all);
        space_at_the_end_goes(Seq::empty(), all);
        assert(whole.take(0) =~= Seq::empty());
        assert(trimmed(whole) =~= inner);
    } else {
        let body = front + inner;
        space_at_the_end_goes(body, back);
        assert(body.last() == inner.last());
        assert(whole.take(body.len() as int) =~= body);
        assert forall|i: int| 0 <= i < front.len() implies !space(false)(#[trigger] body[i]) by {
            assert(body[i] == front[i]);
            assert(is_space(front[i]));
        }
        assert(body[front.len() as int] == inner[0]);
        find_is_here(body, 0, space(false), front.len() as int);
        assert(body.skip(front.len() as int) =~= inner);
    }
}

proof fn trimmed_end_is_last(text: Seq<char>)
    ensures
        0 <= trimmed_end(text) <= text.len(),
        forall|i: int| trimmed_end(text) <= i < text.len() ==> is_space(#[trigger] text[i]),
        trimmed_end(text) > 0 ==> !is_space(text[trimmed_end(text) - 1]),
    decreases text.len(),
{
    if text.len() > 0 && is_space(text.last()) {
        let less = text.drop_last();
        trimmed_end_is_last(less);
        assert forall|i: int| trimmed_end(text) <= i < text.len() implies is_space(
            #[trigger] text[i],
        ) by {
            if i < less.len() {
                assert(is_space(less[i]));
            }
        }
    }
}

/// Nothing is left of a text exactly if it is all white space.
pub proof fn only_space_trims_to_nothing(text: Seq<char>)
    ensures
        trimmed(text).len() == 0 <==> (forall|i: int|
            0 <= i < text.len() ==> is_space(#[trigger] text[i])),
{
    trimmed_end_is_last(text);
    let end = trimmed_end(text);
    let front = text.take(end);
    let start = find(front, 0, space(false));
    find_is_first(front, 0, space(false));
    if end > 0 {
        assert(front[end - 1] == text[end - 1]);
        if start == end {
            assert(!space(false)(front[end - 1]));
        }
        assert(!is_space(text[end - 1]));
    }
}

/// What can be seen is no white space, and blanks, tabulators and line ends are.
pub proof fn visible_characters_are_no_space(c: char)
    ensures
        '!' <= c <= '~' ==> !is_space(c),
        c == ' ' || c == '\t' || c == '\n' || c == '\r' ==> is_space(c),
{
}

/// White space is what Unicode says it is, by number.
pub proof fn white_space_has_these_numbers(c: char)
    ensures
        ({
            let n = c as int;
            is_space(c) <==> 9 <= n <= 13 || n == 32 || n == 133 || n == 160 || n == 5760 || 8192
                <= n <= 8202 || n == 8232 || n == 8233 || n == 8239 || n == 8287 || n == 12288
        }),
{
}

} // verus!
