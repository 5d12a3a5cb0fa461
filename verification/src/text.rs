//! Text the way the rest of the library builds it: sequences of characters, and numbers as words.

use vstd::prelude::*;

verus! {

/// `String::push` appends the character to the end of the string.
pub assume_specification[ String::push ](text: &mut String, c: char)
    ensures
        final(text)@ == old(text)@.push(c),
;

/// The character of one decimal digit.
pub open spec fn digit(d: nat) -> char {
    ('0' as int + d) as char
}

/// A number in decimal, most significant digit first and without leading zeros.
pub open spec fn decimal_text(n: nat) -> Seq<char>
    decreases n,
{
    if n < 10 {
        seq![digit(n)]
    } else {
        decimal_text(n / 10).push(digit(n % 10))
    }
}

/// A number in decimal.
pub fn decimal(n: u64) -> (text: String)
    ensures
        text@ == decimal_text(n as nat),
    decreases n,
{
    let mut text: String = if n < 10 {
        String::new()
    } else {
        decimal(n / 10)
    };
    let d: u8 = (n % 10) as u8;
    text.push((48u8 + d) as char);
    text
}

/// A whole number in decimal, with a minus sign where it is negative.
pub open spec fn signed_text(n: int) -> Seq<char> {
    if n < 0 {
        seq!['-'] + decimal_text((-n) as nat)
    } else {
        decimal_text(n as nat)
    }
}

/// A whole number in decimal.
pub fn signed_decimal(n: i64) -> (text: String)
    requires
        n > i64::MIN,
    ensures
        text@ == signed_text(n as int),
{
    if n < 0 {
        let mut text: String = String::new();
        text.push('-');
        assert(text@ =~= seq!['-']);
        text.concat(decimal((-n) as u64).as_str())
    } else {
        decimal(n as u64)
    }
}

/// A text that may be missing, as characters.
pub open spec fn maybe_text(text: Option<String>) -> Option<Seq<char>> {
    match text {
        Some(text) => Some(text@),
        None => None,
    }
}

/// A copy of a text that may be missing.
pub fn copy_maybe(text: &Option<String>) -> (copy: Option<String>)
    ensures
        maybe_text(copy) == maybe_text(*text),
{
    match text {
        Some(text) => Some(text.clone()),
        None => None,
    }
}

/// Whether two texts that may be missing are the same.
pub fn same_maybe(a: &Option<String>, b: &Option<String>) -> (same: bool)
    ensures
        same == (maybe_text(*a) == maybe_text(*b)),
{
    match (a, b) {
        (Some(a), Some(b)) => same_text(a.as_str(), b.as_str()),
        (None, None) => true,
        _ => false,
    }
}

/// The characters of a text, in order.
pub fn chars_of(text: &str) -> (chars: Vec<char>)
    ensures
        chars@ == text@,
{
    let mut chars: Vec<char> = Vec::new();
    for c in iter: text.chars()
        invariant
            iter.seq() == text@,
            chars@ == text@.take(iter.index()),
    {
        chars.push(c);
        assert(chars@ =~= text@.take(iter.index() + 1));
    }
    assert(chars@ =~= text@);
    chars
}

/// The text a run of characters spells.
pub fn text_of(chars: &Vec<char>) -> (text: String)
    ensures
        text@ == chars@,
{
    let mut text: String = String::new();
    let mut index: usize = 0;
    while index < chars.len()
        invariant
            index <= chars@.len(),
            text@ == chars@.take(index as int),
        decreases chars@.len() - index,
    {
        text.push(chars[index]);
        index = index + 1;
        assert(text@ =~= chars@.take(index as int));
    }
    assert(text@ =~= chars@);
    text
}

/// Whether two texts are the same, character for character.
pub fn same_text(a: &str, b: &str) -> (same: bool)
    ensures
        same == (a@ == b@),
{
    let left: Vec<char> = chars_of(a);
    let right: Vec<char> = chars_of(b);
    if left.len() != right.len() {
        return false;
    }
    let mut index: usize = 0;
    while index < left.len()
        invariant
            index <= left@.len(),
            left@ == a@,
            right@ == b@,
            left@.len() == right@.len(),
            forall|i: int| 0 <= i < index ==> left@[i] == right@[i],
        decreases left@.len() - index,
    {
        if left[index] != right[index] {
            assert(left@[index as int] != right@[index as int]);
            return false;
        }
        index = index + 1;
    }
    assert(left@ =~= right@);
    true
}

/// Whether one text stands somewhere in another.
pub open spec fn contains_text(text: Seq<char>, part: Seq<char>) -> bool {
    exists|at: int| #[trigger] stands_at(text, part, at)
}

/// Whether one text stands in another from a place on.
pub open spec fn stands_at(text: Seq<char>, part: Seq<char>, at: int) -> bool {
    &&& 0 <= at
    &&& at + part.len() <= text.len()
    &&& text.subrange(at, at + part.len()) == part
}

/// Whether a run of characters stands at a place of another.
fn part_at(text: &Vec<char>, part: &Vec<char>, at: usize) -> (found: bool)
    requires
        at + part@.len() <= text@.len(),
    ensures
        found == stands_at(text@, part@, at as int),
{
    let total: usize = text.len();
    let mut index: usize = 0;
    while index < part.len()
        invariant
            index <= part@.len(),
            at + part@.len() <= text@.len() == total,
            forall|i: int| 0 <= i < index ==> text@[at + i] == part@[i],
        decreases part@.len() - index,
    {
        if text[at + index] != part[index] {
            assert(text@.subrange(at as int, at + part@.len())[index as int] != part@[index as int]);
            return false;
        }
        index = index + 1;
    }
    assert(text@.subrange(at as int, at + part@.len()) =~= part@);
    true
}

/// Whether one text stands somewhere in another.
pub fn contains(text: &str, part: &str) -> (found: bool)
    ensures
        found == contains_text(text@, part@),
{
    let hay: Vec<char> = chars_of(text);
    let needle: Vec<char> = chars_of(part);
    if needle.len() > hay.len() {
        return false;
    }
    let last: usize = hay.len() - needle.len();
    let mut at: usize = 0;
    while at < last
        invariant
            hay@ == text@,
            needle@ == part@,
            last == hay@.len() - needle@.len(),
            at <= last,
            forall|i: int| 0 <= i < at ==> !stands_at(text@, part@, i),
        decreases last - at,
    {
        if part_at(&hay, &needle, at) {
            return true;
        }
        at = at + 1;
    }
    part_at(&hay, &needle, at)
}

/// Whether a text begins with another.
pub open spec fn begins_with(text: Seq<char>, start: Seq<char>) -> bool {
    stands_at(text, start, 0)
}

/// Whether a text begins with another.
pub fn starts_with(text: &Vec<char>, start: &str) -> (found: bool)
    ensures
        found == begins_with(text@, start@),
{
    let start: Vec<char> = chars_of(start);
    start.len() <= text.len() && part_at(text, &start, 0)
}

/// The lower case of a text, as `str::to_lowercase` spells it.
pub uninterp spec fn lowercase_of(text: Seq<char>) -> Seq<char>;

/// Calls `str::to_lowercase`: the result depends on the text alone.
#[verifier::external_body]
pub(crate) fn lowercase(text: &str) -> (lower: String)
    ensures
        lower@ == lowercase_of(text@),
{
    text.to_lowercase()
}

/// The part of a run of characters from one place up to another, as text.
pub fn text_between(chars: &Vec<char>, from: usize, to: usize) -> (text: String)
    requires
        from <= to <= chars@.len(),
    ensures
        text@ == chars@.subrange(from as int, to as int),
{
    let mut text: String = String::new();
    let mut index: usize = from;
    while index < to
        invariant
            from <= index <= to <= chars@.len(),
            text@ == chars@.subrange(from as int, index as int),
        decreases to - index,
    {
        text.push(chars[index]);
        index = index + 1;
        assert(text@ =~= chars@.subrange(from as int, index as int));
    }
    text
}

/// The place of the last occurrence of a character before `end`, if there is one.
pub open spec fn last_place(text: Seq<char>, c: char, end: int) -> Option<int>
    decreases end,
{
    if end <= 0 {
        None
    } else if text[end - 1] == c {
        Some(end - 1)
    } else {
        last_place(text, c, end - 1)
    }
}

/// What stands before the last occurrence of a character and what stands after it.
pub open spec fn split_at_last(text: Seq<char>, c: char) -> Option<(Seq<char>, Seq<char>)> {
    match last_place(text, c, text.len() as int) {
        Some(at) => Some((text.take(at), text.skip(at + 1))),
        None => None,
    }
}

/// The place of the last occurrence of a character, if there is one.
pub fn find_last(chars: &Vec<char>, c: char) -> (place: Option<usize>)
    ensures
        match place {
            Some(at) => at < chars@.len() && last_place(chars@, c, chars@.len() as int) == Some(
                at as int,
            ) && chars@[at as int] == c,
            None => last_place(chars@, c, chars@.len() as int) is None,
        },
{
    let mut end: usize = chars.len();
    while end > 0
        invariant
            end <= chars@.len(),
            last_place(chars@, c, end as int) == last_place(chars@, c, chars@.len() as int),
        decreases end,
    {
        if chars[end - 1] == c {
            return Some(end - 1);
        }
        end = end - 1;
    }
    None
}

// ---------------------------------------------------------------------------------------------
// What the words promise
// ---------------------------------------------------------------------------------------------

/// The number a run of decimal digits stands for.
pub open spec fn number_of(digits: Seq<char>) -> int
    decreases digits.len(),
{
    if digits.len() == 0 {
        0
    } else {
        10 * number_of(digits.drop_last()) + (digits.last() as int - '0' as int)
    }
}

/// A number written down reads back as it was: in digits alone, and with no zero in front of another digit.
pub proof fn a_number_reads_back(n: nat)
    ensures
        number_of(decimal_text(n)) == n,
        decimal_text(n).len() > 0,
        forall|i: int|
            0 <= i < decimal_text(n).len() ==> '0' <= (#[trigger] decimal_text(n)[i]) <= '9',
        n > 0 ==> decimal_text(n)[0] != '0',
        n == 0 ==> decimal_text(n).len() == 1,
    decreases n,
{
    let text = decimal_text(n);
    assert(digit(n % 10) as int == '0' as int + n % 10);
    assert(text.last() == digit(n % 10));
    if n >= 10 {
        a_number_reads_back(n / 10);
        assert(text.drop_last() =~= decimal_text(n / 10));
        assert(text[0] == decimal_text(n / 10)[0]);
    } else {
        assert(text.drop_last() =~= seq![]);
        assert(number_of(seq![]) == 0);
    }
}

/// Two numbers are written alike only where they are one.
pub proof fn a_number_is_written_one_way(a: nat, b: nat)
    requires
        decimal_text(a) == decimal_text(b),
    ensures
        a == b,
{
    a_number_reads_back(a);
    a_number_reads_back(b);
}

/// A number below nothing is written with a minus sign in front, and any other as it is.
pub proof fn a_sign_is_written_in_front(n: nat)
    ensures
        signed_text(n as int) == decimal_text(n),
        n > 0 ==> signed_text(-n) == seq!['-'] + decimal_text(n),
{
}

/// A text stands in another exactly where the other is it with something before and after it, or nothing.
pub proof fn a_part_stands_between(text: Seq<char>, part: Seq<char>)
    ensures
        contains_text(text, part) <==> exists|before: Seq<char>, after: Seq<char>|
            text == #[trigger] (before + part + after),
        begins_with(text, part) <==> exists|after: Seq<char>| text == #[trigger] (part + after),
{
    if contains_text(text, part) {
        let at = choose|at: int| #[trigger] stands_at(text, part, at);
        assert(text =~= text.take(at) + part + text.skip(at + part.len()));
    }
    if exists|before: Seq<char>, after: Seq<char>| text == #[trigger] (before + part + after) {
        let (before, after) = choose|before: Seq<char>, after: Seq<char>|
            text == #[trigger] (before + part + after);
        assert(text.subrange(before.len() as int, (before.len() + part.len()) as int) =~= part);
        assert(stands_at(text, part, before.len() as int));
    }
    if begins_with(text, part) {
        assert(text =~= part + text.skip(part.len() as int));
    }
    if exists|after: Seq<char>| text == #[trigger] (part + after) {
        let after = choose|after: Seq<char>| text == #[trigger] (part + after);
        assert(text.subrange(0, part.len() as int) =~= part);
    }
}

/// The last place of a character is the last one.
proof fn the_last_place_is_last(text: Seq<char>, c: char, end: int)
    requires
        0 <= end <= text.len(),
    ensures
        last_place(text, c, end) matches Some(at) ==> 0 <= at < end && text[at] == c && forall|i: int|
            at < i < end ==> #[trigger] text[i] != c,
        last_place(text, c, end) is None ==> forall|i: int| 0 <= i < end ==> #[trigger] text[i] != c,
    decreases end,
{
    if end > 0 {
        the_last_place_is_last(text, c, end - 1);
    }
}

/// A text is split at the last of a character: what follows has none of it, and the two parts with the
/// character between them are the text. A text without the character is not split.
pub proof fn a_text_is_split_at_the_last(text: Seq<char>, c: char)
    ensures
        split_at_last(text, c) is Some <==> text.contains(c),
        split_at_last(text, c) matches Some((before, after)) ==> text == before.push(c) + after
            && !after.contains(c),
{
    the_last_place_is_last(text, c, text.len() as int);
    match last_place(text, c, text.len() as int) {
        Some(at) => {
            assert(text =~= text.take(at).push(c) + text.skip(at + 1));
            assert forall|i: int| 0 <= i < text.skip(at + 1).len() implies #[trigger] text.skip(
                at + 1,
            )[i] != c by {
                assert(text[at + 1 + i] != c);
            }
            assert(text[at] == c);
        },
        None => {},
    }
}

/// Something, then a character, then something without it, is split into the two.
pub proof fn a_split_undoes_a_join(before: Seq<char>, c: char, after: Seq<char>)
    requires
        !after.contains(c),
    ensures
        split_at_last(before.push(c) + after, c) == Some((before, after)),
{
    let text = before.push(c) + after;
    let at = before.len() as int;
    the_last_place_is_last(text, c, text.len() as int);
    assert(text[at] == c);
    assert forall|i: int| at < i < text.len() implies #[trigger] text[i] != c by {
        assert(text[i] == after[i - at - 1]);
    }
    assert(text.take(at) =~= before);
    assert(text.skip(at + 1) =~= after);
}

/// A text that may be missing is missing where there is none, and else what it says.
pub proof fn a_missing_text_is_missing(text: Option<String>)
    ensures
        text is None ==> maybe_text(text) is None,
        text matches Some(said) ==> maybe_text(text) == Some(said@),
{
}

} // verus!
