//! Text as a sequence of characters, and the few operations on it that the
//! rest of the library is built from.

use vstd::prelude::*;

verus! {

/// `String::push` puts the given character behind the last one.
pub assume_specification[ String::push ](s: &mut String, c: char)
    ensures
        final(s)@ == old(s)@.push(c),
;

/// The characters of `text`, in order.
pub fn chars_of(text: &str) -> (chars: Vec<char>)
    ensures
        chars@ == text@,
{
    let mut chars: Vec<char> = Vec::new();
    let mut rest = text.chars();
    let ghost mut seen: int = 0;
    loop
        invariant
            0 <= seen <= text@.len(),
            chars@ == text@.take(seen),
            vstd::std_specs::iter::IteratorSpec::remaining(&rest) == text@.skip(seen),
            vstd::std_specs::iter::IteratorSpec::obeys_prophetic_iter_laws(&rest),
        ensures
            chars@ == text@,
        decreases text@.len() - seen,
    {
        match rest.next() {
            Some(c) => {
                chars.push(c);
                proof {
                    assert(text@.skip(seen)[0] == text@[seen]);
                    assert(text@.skip(seen).drop_first() =~= text@.skip(seen + 1));
                    assert(text@.take(seen).push(text@[seen]) =~= text@.take(seen + 1));
                    seen = seen + 1;
                }
            },
            None => {
                assert(text@.take(seen) =~= text@);
                break;
            },
        }
    }
    chars
}

/// The text that the characters from `from` up to `to` spell.
pub fn string_of(chars: &Vec<char>, from: usize, to: usize) -> (text: String)
    requires
        from <= to <= chars@.len(),
    ensures
        text@ == chars@.subrange(from as int, to as int),
{
    let mut text = String::new();
    let mut i: usize = from;
    while i < to
        invariant
            from <= i <= to <= chars@.len(),
            text@ == chars@.subrange(from as int, i as int),
        decreases to - i,
    {
        text.push(chars[i]);
        assert(chars@.subrange(from as int, i as int).push(chars@[i as int])
            =~= chars@.subrange(from as int, i + 1));
        i += 1;
    }
    text
}

/// `part` stands in `text` at position `at`.
pub open spec fn occurs_at(text: Seq<char>, part: Seq<char>, at: int) -> bool {
    &&& 0 <= at
    &&& at + part.len() <= text.len()
    &&& text.subrange(at, at + part.len()) == part
}

/// `part` stands somewhere in `text`.
pub open spec fn has_part(text: Seq<char>, part: Seq<char>) -> bool {
    exists|at: int| occurs_at(text, part, at)
}

/// `text` begins with `part`.
pub open spec fn begins_with(text: Seq<char>, part: Seq<char>) -> bool {
    occurs_at(text, part, 0)
}

/// `text` ends with `part`.
pub open spec fn finishes_with(text: Seq<char>, part: Seq<char>) -> bool {
    occurs_at(text, part, text.len() - part.len())
}

/// The position of the last place at which `part` stands in `text`.
pub open spec fn is_last_place(text: Seq<char>, part: Seq<char>, at: int) -> bool {
    &&& occurs_at(text, part, at)
    &&& forall|later: int| at < later ==> !occurs_at(text, part, later)
}

/// The characters of a row of strings.
pub open spec fn texts(strings: Seq<String>) -> Seq<Seq<char>> {
    strings.map_values(|s: String| s@)
}

/// The characters of a row of character vectors.
pub open spec fn rows(vectors: Seq<Vec<char>>) -> Seq<Seq<char>> {
    vectors.map_values(|v: Vec<char>| v@)
}

/// The characters of a text that may be missing.
pub open spec fn optional(content: Option<String>) -> Option<Seq<char>> {
    match content {
        Some(text) => Some(text@),
        None => None,
    }
}

/// The characters of a borrowed text that may be missing.
pub open spec fn optional_str(content: Option<&str>) -> Option<Seq<char>> {
    match content {
        Some(text) => Some(text@),
        None => None,
    }
}

/// Whether `part` stands in `text` at `at`.
pub fn stands_at(text: &Vec<char>, part: &Vec<char>, at: usize) -> (yes: bool)
    ensures
        yes == occurs_at(text@, part@, at as int),
{
    let size: usize = text.len();
    if at > size || part.len() > size - at {
        return false;
    }
    let mut i: usize = 0;
    while i < part.len()
        invariant
            i <= part@.len(),
            size == text@.len(),
            at + part@.len() <= size,
            forall|k: int| 0 <= k < i ==> text@[at + k] == part@[k],
        decreases part@.len() - i,
    {
        if text[at + i] != part[i] {
            assert(text@.subrange(at as int, at + part@.len())[i as int] != part@[i as int]);
            return false;
        }
        i += 1;
    }
    assert(text@.subrange(at as int, at + part@.len()) =~= part@);
    true
}

/// The last place at which `part` stands in `text`.
pub fn last_place(text: &Vec<char>, part: &Vec<char>) -> (place: Option<usize>)
    ensures
        match place {
            Some(at) => is_last_place(text@, part@, at as int),
            None => !has_part(text@, part@),
        },
{
    if part.len() > text.len() {
        return None;
    }
    let mut at: usize = text.len() - part.len();
    while !stands_at(text, part, at)
        invariant
            part@.len() <= text@.len(),
            at <= text@.len() - part@.len(),
            forall|later: int| at < later ==> !occurs_at(text@, part@, later),
        decreases at,
    {
        if at == 0 {
            return None;
        }
        at -= 1;
    }
    Some(at)
}

/// Whether `part` stands anywhere in `text`.
pub fn contains_part(text: &Vec<char>, part: &Vec<char>) -> (yes: bool)
    ensures
        yes == has_part(text@, part@),
{
    last_place(text, part).is_some()
}

/// Whether `part` stands anywhere in `text`.
pub fn text_contains(text: &str, part: &str) -> (yes: bool)
    ensures
        yes == has_part(text@, part@),
{
    contains_part(&chars_of(text), &chars_of(part))
}

/// Whether two texts hold the same characters.
pub fn same_text(a: &str, b: &str) -> (yes: bool)
    ensures
        yes == (a@ == b@),
{
    let left = chars_of(a);
    let right = chars_of(b);
    left.len() == right.len() && {
        let found = stands_at(&left, &right, 0);
        assert(left@.len() == right@.len() ==> left@.subrange(0, right@.len() as int) =~= left@);
        found
    }
}

/// `text` with `with` in the place of each character `c`.
pub open spec fn replaced(text: Seq<char>, c: char, with: Seq<char>) -> Seq<char>
    decreases text.len(),
{
    if text.len() == 0 {
        Seq::empty()
    } else {
        replaced(text.drop_last(), c, with) + if text.last() == c {
            with
        } else {
            seq![text.last()]
        }
    }
}

/// A text in which `c` does not stand is left as it is.
pub proof fn replaced_leaves_others(text: Seq<char>, c: char, with: Seq<char>)
    requires
        !text.contains(c),
    ensures
        replaced(text, c, with) == text,
    decreases text.len(),
{
    if text.len() > 0 {
        assert(text.contains(text.last()));
        assert(!text.drop_last().contains(c)) by {
            if text.drop_last().contains(c) {
                let i = choose|i: int| 0 <= i < text.drop_last().len() && text.drop_last()[i] == c;
                assert(text[i] == c);
            }
        }
        replaced_leaves_others(text.drop_last(), c, with);
        assert(text.drop_last() + seq![text.last()] =~= text);
    } else {
        assert(text =~= Seq::empty());
    }
}

/// After the replacement `c` stands in the text only where the replacement
/// itself brings it in, and no other new character appears.
pub proof fn replaced_holds_only(text: Seq<char>, c: char, with: Seq<char>, x: char)
    requires
        replaced(text, c, with).contains(x),
    ensures
        with.contains(x) || (x != c && text.contains(x)),
    decreases text.len(),
{
    if text.len() > 0 {
        let front = replaced(text.drop_last(), c, with);
        let whole = replaced(text, c, with);
        let i = choose|i: int| 0 <= i < whole.len() && whole[i] == x;
        if i < front.len() {
            assert(front[i] == x);
            replaced_holds_only(text.drop_last(), c, with, x);
            if text.drop_last().contains(x) {
                let k = choose|k: int| 0 <= k < text.drop_last().len() && text.drop_last()[k] == x;
                assert(text[k] == x);
            }
        } else if text.last() == c {
            assert(with[i - front.len()] == x);
        } else {
            assert(text[text.len() - 1] == x);
        }
    }
}

/// `text` with `with` in the place of each character `c`.
pub fn replace_char(text: &str, c: char, with: &str) -> (result: String)
    ensures
        result@ == replaced(text@, c, with@),
{
    let chars = chars_of(text);
    let mut result = String::new();
    let mut i: usize = 0;
    while i < chars.len()
        invariant
            i <= chars@.len(),
            result@ == replaced(chars@.take(i as int), c, with@),
        decreases chars@.len() - i,
    {
        proof {
            assert(chars@.take(i + 1).drop_last() =~= chars@.take(i as int));
            assert(chars@.take(i + 1).last() == chars@[i as int]);
        }
        if chars[i] == c {
            result.append(with);
        } else {
            result.push(chars[i]);
            assert(result@ =~= replaced(chars@.take(i as int), c, with@) + seq![chars@[i as int]]);
        }
        i += 1;
    }
    assert(chars@.take(i as int) =~= chars@);
    result
}

/// Replacing goes character by character: what is done to two texts one behind
/// the other is done to each.
pub proof fn replacing_adds_up(a: Seq<char>, b: Seq<char>, c: char, with: Seq<char>)
    ensures
        replaced(a + b, c, with) == replaced(a, c, with) + replaced(b, c, with),
    decreases b.len(),
{
    if b.len() == 0 {
        assert(a + b =~= a);
        assert(replaced(a, c, with) + replaced(b, c, with) =~= replaced(a, c, with));
    } else {
        replacing_adds_up(a, b.drop_last(), c, with);
        assert((a + b).drop_last() =~= a + b.drop_last());
        assert(replaced(a + b, c, with) =~= replaced(a, c, with) + replaced(b, c, with));
    }
}

/// A single character is replaced where it is the one, and stays where it is
/// not.
pub proof fn one_character_is_replaced(x: char, c: char, with: Seq<char>)
    ensures
        replaced(seq![x], c, with) == (if x == c {
            with
        } else {
            seq![x]
        }),
{
    let one = seq![x];
    assert(one.drop_last() =~= Seq::empty());
    assert(replaced(one.drop_last(), c, with) =~= Seq::empty());
    assert(replaced(one, c, with) =~= if x == c {
        with
    } else {
        seq![x]
    });
}

/// Where one character takes the place of another, all others stay where they
/// are.
pub proof fn replacing_keeps_places(text: Seq<char>, c: char, with: char)
    ensures
        replaced(text, c, seq![with]).len() == text.len(),
        forall|i: int|
            0 <= i < text.len() ==> #[trigger] replaced(text, c, seq![with])[i] == (if text[i] == c {
                with
            } else {
                text[i]
            }),
    decreases text.len(),
{
    if text.len() > 0 {
        replacing_keeps_places(text.drop_last(), c, with);
        let front = replaced(text.drop_last(), c, seq![with]);
        assert forall|i: int| 0 <= i < text.len() implies #[trigger] replaced(
            text,
            c,
            seq![with],
        )[i] == (if text[i] == c {
            with
        } else {
            text[i]
        }) by {
            if i < text.len() - 1 {
                assert(replaced(text, c, seq![with])[i] == front[i]);
                assert(text.drop_last()[i] == text[i]);
            }
        }
    }
}

} // verus!
