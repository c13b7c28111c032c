//! Words and numbers in a line of text.
//!
//! A line is a sequence of characters. Its words are the maximal runs of
//! characters that are not white space; a number is an optional `+` and then
//! decimal digits.

use vstd::prelude::*;

verus! {

/// `c` is white space: one of the characters that Unicode gives the property
/// `White_Space`.
pub open spec fn is_space(c: char) -> bool {
    let code = c as u32;
    ||| 0x09 <= code <= 0x0D
    ||| code == 0x20
    ||| code == 0x85
    ||| code == 0xA0
    ||| code == 0x1680
    ||| 0x2000 <= code <= 0x200A
    ||| code == 0x2028
    ||| code == 0x2029
    ||| code == 0x202F
    ||| code == 0x205F
    ||| code == 0x3000
}

/// The length of the longest prefix of `line` that holds no white space.
pub open spec fn word_length(line: Seq<char>) -> nat
    decreases line.len(),
{
    if line.len() == 0 || is_space(line[0]) {
        0
    } else {
        1 + word_length(line.drop_first())
    }
}

/// The words of `line`, in order: its maximal runs of characters that are not
/// white space.
pub open spec fn words(line: Seq<char>) -> Seq<Seq<char>>
    decreases line.len(),
    via words_shrink
{
    if line.len() == 0 {
        Seq::empty()
    } else if is_space(line[0]) {
        words(line.drop_first())
    } else {
        let n = word_length(line) as int;
        seq![line.take(n)] + words(line.skip(n))
    }
}

#[via_fn]
proof fn words_shrink(line: Seq<char>) {
    word_length_bounded(line);
}

/// `word` holds at least one character, and none that is white space.
pub open spec fn is_word(word: Seq<char>) -> bool {
    word.len() > 0 && forall|k: int| 0 <= k < word.len() ==> !is_space(#[trigger] word[k])
}

/// The character sequences that the vectors hold, in order.
pub open spec fn spelled(parts: Seq<Vec<char>>) -> Seq<Seq<char>> {
    Seq::new(parts.len(), |i: int| parts[i]@)
}

/// `c` is one of the ten decimal digits.
pub open spec fn is_digit(c: char) -> bool {
    '0' <= c <= '9'
}

/// The value of a decimal digit.
pub open spec fn digit_value(c: char) -> nat {
    (c as u32 - '0' as u32) as nat
}

/// The number that a run of decimal digits spells, most significant first.
pub open spec fn decimal(digits: Seq<char>) -> nat
    decreases digits.len(),
{
    if digits.len() == 0 {
        0
    } else {
        decimal(digits.drop_last()) * 10 + digit_value(digits.last())
    }
}

/// The digits of a word that may start with one `+`.
pub open spec fn unsigned_part(word: Seq<char>) -> Seq<char> {
    if word.len() > 0 && word[0] == '+' {
        word.drop_first()
    } else {
        word
    }
}

/// The number that `word` spells: an optional `+`, then at least one decimal
/// digit and nothing else, of a value that a `usize` holds.
pub open spec fn number(word: Seq<char>) -> Option<usize> {
    let digits = unsigned_part(word);
    if digits.len() > 0 && (forall|i: int| 0 <= i < digits.len() ==> is_digit(#[trigger] digits[i]))
        && decimal(digits) <= usize::MAX {
        Some(decimal(digits) as usize)
    } else {
        None
    }
}

/// The words put together again, with one blank between neighbours.
pub open spec fn joined(words: Seq<Seq<char>>) -> Seq<char>
    decreases words.len(),
{
    if words.len() == 0 {
        Seq::empty()
    } else if words.len() == 1 {
        words[0]
    } else {
        joined(words.drop_last()) + seq![' '] + words.last()
    }
}

/// A line's first word is no longer than the line.
pub proof fn word_length_bounded(line: Seq<char>)
    ensures
        word_length(line) <= line.len(),
    decreases line.len(),
{
    if line.len() > 0 && !is_space(line[0]) {
        word_length_bounded(line.drop_first());
    }
}

/// The first word of a line that starts with none of white space holds at
/// least that character, and no white space.
proof fn first_word_is_a_run(line: Seq<char>)
    requires
        line.len() > 0,
        !is_space(line[0]),
    ensures
        0 < word_length(line) <= line.len(),
        forall|k: int| 0 <= k < word_length(line) ==> !is_space(#[trigger] line[k]),
    decreases line.len(),
{
    let rest = line.drop_first();
    assert(word_length(line) == 1 + word_length(rest));
    if rest.len() > 0 && !is_space(rest[0]) {
        first_word_is_a_run(rest);
        assert forall|k: int| 0 <= k < word_length(line) implies !is_space(#[trigger] line[k]) by {
            if k > 0 {
                assert(line[k] == rest[k - 1]);
            }
        }
    } else {
        assert(word_length(rest) == 0);
    }
}

/// Every word of a line holds at least one character, and none that is white
/// space.
pub proof fn words_hold_no_space(line: Seq<char>)
    ensures
        forall|i: int| 0 <= i < words(line).len() ==> is_word(#[trigger] words(line)[i]),
    decreases line.len(),
{
    if line.len() == 0 {
    } else if is_space(line[0]) {
        words_hold_no_space(line.drop_first());
        assert(words(line) == words(line.drop_first()));
    } else {
        let n = word_length(line) as int;
        first_word_is_a_run(line);
        words_hold_no_space(line.skip(n));
        let first = line.take(n);
        let rest = words(line.skip(n));
        assert(is_word(first));
        assert forall|i: int| 0 <= i < words(line).len() implies is_word(
            #[trigger] words(line)[i],
        ) by {
            if i > 0 {
                assert(words(line)[i] == rest[i - 1]);
            }
        }
    }
}

/// A run of `count` characters without white space, which ends the line or
/// is followed by white space, is the line's first word.
proof fn word_length_of_run(line: Seq<char>, count: int)
    requires
        0 <= count <= line.len(),
        forall|j: int| 0 <= j < count ==> !is_space(#[trigger] line[j]),
        count == line.len() || is_space(line[count]),
    ensures
        word_length(line) == count,
    decreases count,
{
    if count > 0 {
        let rest = line.drop_first();
        assert forall|j: int| 0 <= j < count - 1 implies !is_space(#[trigger] rest[j]) by {
            assert(rest[j] == line[j + 1]);
        }
        word_length_of_run(rest, count - 1);
    }
}

/// The digits read so far never spell more than the whole run does.
proof fn decimal_of_prefix(digits: Seq<char>, count: int)
    requires
        0 <= count <= digits.len(),
    ensures
        decimal(digits.take(count)) <= decimal(digits),
    decreases digits.len(),
{
    if count == digits.len() {
        assert(digits.take(count) =~= digits);
    } else {
        decimal_of_prefix(digits.drop_last(), count);
        assert(digits.drop_last().take(count) =~= digits.take(count));
    }
}

/// The characters of `text`, in order.
pub fn chars_of(text: &str) -> (chars: Vec<char>)
    ensures
        chars@ == text@,
{
    let mut chars: Vec<char> = Vec::new();
    for c in it: text.chars()
        invariant
            it.seq() == text@,
            chars@ == text@.take(it.index() as int),
    {
        chars.push(c);
        assert(chars@ =~= text@.take(it.index() + 1));
    }
    assert(chars@ =~= text@);
    chars
}

/// Whether `c` is white space.
pub fn is_whitespace(c: char) -> (space: bool)
    ensures
        space == is_space(c),
{
    let code: u32 = c as u32;
    (0x09 <= code && code <= 0x0D) || code == 0x20 || code == 0x85 || code == 0xA0 || code
        == 0x1680 || (0x2000 <= code && code <= 0x200A) || code == 0x2028 || code == 0x2029
        || code == 0x202F || code == 0x205F || code == 0x3000
}

/// Splits a line into its words.
pub fn split_words(line: &Vec<char>) -> (parts: Vec<Vec<char>>)
    ensures
        spelled(parts@) == words(line@),
{
    let mut parts: Vec<Vec<char>> = Vec::new();
    let mut index: usize = 0;
    assert(line@.skip(0) =~= line@);
    assert(spelled(parts@) + words(line@) =~= words(line@));
    while index < line.len()
        invariant
            index <= line@.len(),
            spelled(parts@) + words(line@.skip(index as int)) == words(line@),
        decreases line@.len() - index,
    {
        let ghost rest = line@.skip(index as int);
        if is_whitespace(line[index]) {
            index += 1;
            assert(rest.drop_first() =~= line@.skip(index as int));
        } else {
            let start: usize = index;
            let mut word: Vec<char> = Vec::new();
            while index < line.len() && !is_whitespace(line[index])
                invariant
                    start <= index <= line@.len(),
                    word@ == line@.subrange(start as int, index as int),
                    forall|j: int| start <= j < index ==> !is_space(#[trigger] line@[j]),
                decreases line@.len() - index,
            {
                word.push(line[index]);
                index += 1;
                assert(word@ =~= line@.subrange(start as int, index as int));
            }
            proof {
                let count = index - start;
                assert forall|j: int| 0 <= j < count implies !is_space(#[trigger] rest[j]) by {
                    assert(rest[j] == line@[start + j]);
                }
                word_length_of_run(rest, count);
                assert(rest.take(count) =~= word@);
                assert(rest.skip(count) =~= line@.skip(index as int));
                assert(spelled(parts@).push(word@) + words(line@.skip(index as int))
                    =~= spelled(parts@) + words(rest));
            }
            let ghost before = spelled(parts@);
            let ghost spelling = word@;
            parts.push(word);
            assert(spelled(parts@) =~= before.push(spelling));
        }
    }
    assert(line@.skip(index as int) =~= Seq::<char>::empty());
    assert(spelled(parts@) + Seq::<Seq<char>>::empty() =~= spelled(parts@));
    parts
}

/// Reads a number: an optional `+`, then decimal digits. Anything else, and a
/// value that a `usize` cannot hold, gives `None`.
pub fn parse_number(word: &Vec<char>) -> (value: Option<usize>)
    ensures
        value == number(word@),
{
    let start: usize = if word.len() > 0 && word[0] == '+' {
        1
    } else {
        0
    };
    let ghost digits = unsigned_part(word@);
    assert(digits =~= word@.skip(start as int));
    if start == word.len() {
        return None;
    }
    let mut total: usize = 0;
    let mut index: usize = start;
    assert(digits.take(0) =~= Seq::<char>::empty());
    while index < word.len()
        invariant
            start <= index <= word@.len(),
            digits == unsigned_part(word@),
            digits == word@.skip(start as int),
            digits.len() > 0,
            forall|j: int| 0 <= j < index - start ==> is_digit(#[trigger] digits[j]),
            total == decimal(digits.take(index - start)),
        decreases word@.len() - index,
    {
        let c: char = word[index];
        assert(c == digits[index - start]);
        if c < '0' || c > '9' {
            assert(!is_digit(digits[index - start]));
            return None;
        }
        let digit: usize = (c as u32 - '0' as u32) as usize;
        proof {
            let longer = digits.take(index - start + 1);
            assert(longer.drop_last() =~= digits.take(index - start));
            assert(longer.last() == c);
            assert(decimal(longer) == total * 10 + digit);
            decimal_of_prefix(digits, index - start + 1);
        }
        let shifted: usize = match total.checked_mul(10) {
            Some(shifted) => shifted,
            None => {
                return None;
            },
        };
        total = match shifted.checked_add(digit) {
            Some(sum) => sum,
            None => {
                return None;
            },
        };
        index += 1;
    }
    assert(digits.take(index - start) =~= digits);
    Some(total)
}

/// Whether two runs of characters are the same.
pub fn same_chars(left: &Vec<char>, right: &Vec<char>) -> (same: bool)
    ensures
        same == (left@ == right@),
{
    if left.len() != right.len() {
        return false;
    }
    let mut index: usize = 0;
    while index < left.len()
        invariant
            left@.len() == right@.len(),
            index <= left@.len(),
            forall|j: int| 0 <= j < index ==> left@[j] == right@[j],
        decreases left@.len() - index,
    {
        if left[index] != right[index] {
            return false;
        }
        index += 1;
    }
    assert(left@ =~= right@);
    true
}

/// Whether `word` spells `keyword`.
pub fn spells(word: &Vec<char>, keyword: &str) -> (same: bool)
    ensures
        same == (word@ == keyword@),
{
    let expected = chars_of(keyword);
    same_chars(word, &expected)
}

/// Calls `String::push`. Trusted: the text is afterwards what it was, with
/// `c` added at its end.
#[verifier::external_body]
fn push_char(text: &mut String, c: char)
    ensures
        final(text)@ == old(text)@.push(c),
{
    text.push(c)
}

/// The words from position `from` on, as one text with single blanks between
/// them.
pub fn join_words(parts: &Vec<Vec<char>>, from: usize) -> (text: String)
    requires
        from <= parts@.len(),
    ensures
        text@ == joined(spelled(parts@).skip(from as int)),
{
    let mut text = String::new();
    let mut index: usize = from;
    let ghost all = spelled(parts@);
    assert(all.subrange(from as int, from as int) =~= Seq::<Seq<char>>::empty());
    while index < parts.len()
        invariant
            from <= index <= parts@.len(),
            all == spelled(parts@),
            text@ == joined(all.subrange(from as int, index as int)),
        decreases parts@.len() - index,
    {
        let ghost before = all.subrange(from as int, index as int);
        let ghost next = all.subrange(from as int, index + 1);
        if index > from {
            push_char(&mut text, ' ');
        }
        let ghost lead = text@;
        let word = &parts[index];
        let mut at: usize = 0;
        while at < word.len()
            invariant
                at <= word@.len(),
                text@ == lead + word@.take(at as int),
            decreases word@.len() - at,
        {
            push_char(&mut text, word[at]);
            at += 1;
            assert(text@ =~= lead + word@.take(at as int));
        }
        proof {
            assert(word@.take(at as int) =~= word@);
            assert(next.drop_last() =~= before);
            assert(next.last() == word@);
            if index > from {
                assert(lead =~= joined(before) + seq![' ']);
                assert(joined(next) == joined(before) + seq![' '] + word@);
            } else {
                assert(lead =~= Seq::<char>::empty());
                assert(next[0] == word@);
                assert(text@ =~= word@);
            }
        }
        index += 1;
    }
    assert(all.subrange(from as int, index as int) =~= all.skip(from as int));
    text
}

} // verus!
