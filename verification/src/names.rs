//! What notes and files are called.

use crate::paths::{file_name, name_in};
use crate::text::{chars_of, find_last, last_place, split_at_last, text_between, text_of};
use vstd::prelude::*;

verus! {

/// Whether a character beyond ASCII is a letter or a number, as `char::is_alphanumeric` says.
pub uninterp spec fn is_letter_or_number_abroad(c: char) -> bool;

/// Whether a character is one of ASCII's letters and digits.
pub open spec fn is_ascii_letter_or_digit(c: char) -> bool {
    'a' <= c <= 'z' || 'A' <= c <= 'Z' || '0' <= c <= '9'
}

/// Whether a character is a letter or a number.
pub open spec fn is_letter_or_number(c: char) -> bool {
    if c <= '\u{7f}' {
        is_ascii_letter_or_digit(c)
    } else {
        is_letter_or_number_abroad(c)
    }
}

/// Whether a character is white space: the tab and what follows it up to the carriage return, and
/// the spaces and line breaks of Unicode.
pub open spec fn is_white(c: char) -> bool {
    ||| '\u{9}' <= c <= '\u{d}'
    ||| c == ' '
    ||| c == '\u{85}'
    ||| c == '\u{a0}'
    ||| c == '\u{1680}'
    ||| '\u{2000}' <= c <= '\u{200a}'
    ||| c == '\u{2028}'
    ||| c == '\u{2029}'
    ||| c == '\u{202f}'
    ||| c == '\u{205f}'
    ||| c == '\u{3000}'
}

/// Whether a character is a control character.
pub open spec fn is_control_code(c: char) -> bool {
    c <= '\u{1f}' || '\u{7f}' <= c <= '\u{9f}'
}

/// `char::is_alphanumeric`: of ASCII the letters and the digits, and beyond it what depends on the
/// character alone.
pub assume_specification[ char::is_alphanumeric ](c: char) -> (is: bool)
    ensures
        c <= '\u{7f}' ==> is == is_ascii_letter_or_digit(c),
        c > '\u{7f}' ==> is == is_letter_or_number_abroad(c),
;

/// `char::is_whitespace`: the characters with Unicode's White_Space property.
pub assume_specification[ char::is_whitespace ](c: char) -> (is: bool)
    ensures
        is == is_white(c),
;

/// `char::is_control`: the characters of Unicode's category of control codes.
pub assume_specification[ char::is_control ](c: char) -> (is: bool)
    ensures
        is == is_control_code(c),
;

// ---------------------------------------------------------------------------------------------
// Stems and extensions
// ---------------------------------------------------------------------------------------------

/// A file name without its extension: what stands before the last dot, unless nothing does.
pub open spec fn stem_of_name(name: Seq<char>) -> Seq<char> {
    match split_at_last(name, '.') {
        Some((stem, _)) => if stem.len() > 0 {
            stem
        } else {
            name
        },
        None => name,
    }
}

/// A file name without its extension.
pub fn name_stem(name: &str) -> (stem: String)
    ensures
        stem@ == stem_of_name(name@),
{
    let chars: Vec<char> = chars_of(name);
    match find_last(&chars, '.') {
        Some(at) => if at > 0 {
            assert(chars@.take(at as int) =~= chars@.subrange(0, at as int));
            text_between(&chars, 0, at)
        } else {
            text_of(&chars)
        },
        None => text_of(&chars),
    }
}

/// The extension of a file name: what stands after the last dot, unless nothing stands before it.
pub open spec fn extension_of_name(name: Seq<char>) -> Option<Seq<char>> {
    match split_at_last(name, '.') {
        Some((stem, extension)) => if stem.len() > 0 {
            Some(extension)
        } else {
            None
        },
        None => None,
    }
}

/// The extension of the file a path leads to, if it has one.
pub open spec fn extension_in(path: Seq<char>) -> Option<Seq<char>> {
    match name_in(path) {
        Some(name) => extension_of_name(name),
        None => None,
    }
}

/// The extension of the file a path leads to, if it has one.
pub fn extension(path: &str) -> (extension: Option<String>)
    ensures
        match extension {
            Some(extension) => extension_in(path@) == Some(extension@),
            None => extension_in(path@) is None,
        },
{
    match file_name(path) {
        Some(name) => {
            let chars: Vec<char> = chars_of(name.as_str());
            let total: usize = chars.len();
            match find_last(&chars, '.') {
                Some(at) => if at > 0 {
                    assert(chars@.skip(at + 1) =~= chars@.subrange(at + 1, total as int));
                    Some(text_between(&chars, at + 1, total))
                } else {
                    None
                },
                None => None,
            }
        },
        None => None,
    }
}

/// The lower case of an ASCII letter; any other character as it is.
pub open spec fn ascii_lower(c: char) -> char {
    if 'A' <= c && c <= 'Z' {
        (c as int + 32) as char
    } else {
        c
    }
}

/// A text with its ASCII letters in lower case.
pub open spec fn ascii_lowered(text: Seq<char>) -> Seq<char> {
    Seq::new(text.len(), |i: int| ascii_lower(text[i]))
}

/// A text with its ASCII letters in lower case.
pub fn to_ascii_lower(text: &str) -> (lower: String)
    ensures
        lower@ == ascii_lowered(text@),
{
    let chars: Vec<char> = chars_of(text);
    let mut lower: String = String::new();
    let mut index: usize = 0;
    while index < chars.len()
        invariant
            index <= chars@.len(),
            chars@ == text@,
            lower@ == ascii_lowered(text@).take(index as int),
        decreases chars@.len() - index,
    {
        let c: char = chars[index];
        let low: char = if 'A' <= c && c <= 'Z' {
            (c as u8 + 32) as char
        } else {
            c
        };
        lower.push(low);
        index = index + 1;
        assert(lower@ =~= ascii_lowered(text@).take(index as int));
    }
    assert(lower@ =~= ascii_lowered(text@));
    lower
}

/// The file name of a path, or the whole path where it has none.
pub open spec fn file_label_of(path: Seq<char>) -> Seq<char> {
    match name_in(path) {
        Some(name) => name,
        None => path,
    }
}

/// The file name of a path, for a message about it; a path without one is named whole.
pub fn file_label(path: &str) -> (label: String)
    ensures
        label@ == file_label_of(path@),
{
    match file_name(path) {
        Some(name) => name,
        None => String::from_str(path),
    }
}

// ---------------------------------------------------------------------------------------------
// The folder a note is placed in
// ---------------------------------------------------------------------------------------------

/// A character a folder may be called by; any other is a dash.
pub open spec fn folder_char(c: char) -> char {
    if is_letter_or_number(c) || c == '-' || c == '_' {
        c
    } else {
        '-'
    }
}

/// A text with every character one a folder may be called by.
pub open spec fn cleaned(text: Seq<char>) -> Seq<char> {
    Seq::new(text.len(), |i: int| folder_char(text[i]))
}

/// A text without the dashes at its start.
pub open spec fn without_leading_dashes(text: Seq<char>) -> Seq<char>
    decreases text.len(),
{
    if text.len() > 0 && text[0] == '-' {
        without_leading_dashes(text.skip(1))
    } else {
        text
    }
}

/// A text without the dashes at its end.
pub open spec fn without_trailing_dashes(text: Seq<char>) -> Seq<char>
    decreases text.len(),
{
    if text.len() > 0 && text.last() == '-' {
        without_trailing_dashes(text.drop_last())
    } else {
        text
    }
}

/// One step of the FNV-1a digest, in 64 bits.
pub open spec fn digest_step(digest: u64, byte: u8) -> u64 {
    (((digest ^ (byte as u64)) * 0x100_0000_01b3) % 0x1_0000_0000_0000_0000) as u64
}

/// The FNV-1a digest of a run of bytes, in 64 bits.
pub open spec fn digest_of(bytes: Seq<u8>) -> u64
    decreases bytes.len(),
{
    if bytes.len() == 0 {
        0xcbf2_9ce4_8422_2325
    } else {
        digest_step(digest_of(bytes.drop_last()), bytes.last())
    }
}

/// The character of one hexadecimal digit, in lower case.
pub open spec fn hex_char(d: int) -> char {
    if d < 10 {
        ('0' as int + d) as char
    } else {
        ('a' as int + d - 10) as char
    }
}

/// The last `count` hexadecimal digits of a number.
pub open spec fn hex_text(value: nat, count: nat) -> Seq<char>
    decreases count,
{
    if count == 0 {
        seq![]
    } else {
        hex_text(value / 16, (count - 1) as nat).push(hex_char((value % 16) as int))
    }
}

/// What stands for a file in its note's folder name: its stem, cleaned, or the word "note".
pub open spec fn folder_stem(source: Seq<char>) -> Seq<char> {
    let stem = match name_in(source) {
        Some(name) => stem_of_name(name),
        None => "note"@,
    };
    without_trailing_dashes(without_leading_dashes(cleaned(stem)))
}

/// The folder a note from a file is placed in: the file's own stem plus a digest of the whole path.
pub open spec fn folder_name_of(source: Seq<char>) -> Seq<char> {
    let digest = digest_of(vstd::utf8::encode_utf8(source));
    folder_stem(source) + "-"@ + hex_text((digest % 0x1_0000_0000) as nat, 8)
}

/// The digest of a run of bytes.
fn digest(bytes: &[u8]) -> (digest: u64)
    ensures
        digest == digest_of(bytes@),
{
    let mut digest: u64 = 0xcbf2_9ce4_8422_2325;
    let mut index: usize = 0;
    assert(bytes@.take(0) =~= seq![]);
    while index < bytes.len()
        invariant
            index <= bytes@.len(),
            digest == digest_of(bytes@.take(index as int)),
        decreases bytes@.len() - index,
    {
        assert(bytes@.take(index + 1).drop_last() =~= bytes@.take(index as int));
        assert(bytes@.take(index + 1).last() == bytes@[index as int]);
        let mixed: u64 = digest ^ (bytes[index] as u64);
        digest = mixed.wrapping_mul(0x100_0000_01b3);
        index = index + 1;
    }
    assert(bytes@.take(index as int) =~= bytes@);
    digest
}

/// The last `count` hexadecimal digits of a number.
fn hex(value: u64, count: u32) -> (text: String)
    ensures
        text@ == hex_text(value as nat, count as nat),
    decreases count,
{
    if count == 0 {
        return String::new();
    }
    let mut text: String = hex(value / 16, count - 1);
    let d: u8 = (value % 16) as u8;
    let c: char = if d < 10 {
        (48u8 + d) as char
    } else {
        (87u8 + d) as char
    };
    text.push(c);
    text
}

/// A text with every character one a folder may be called by.
fn clean(stem: &str) -> (chars: Vec<char>)
    ensures
        chars@ == cleaned(stem@),
{
    let chars: Vec<char> = chars_of(stem);
    let mut out: Vec<char> = Vec::new();
    let mut index: usize = 0;
    while index < chars.len()
        invariant
            index <= chars@.len(),
            chars@ == stem@,
            out@ == cleaned(stem@).take(index as int),
        decreases chars@.len() - index,
    {
        let c: char = chars[index];
        let kept: bool = c.is_alphanumeric() || c == '-' || c == '_';
        out.push(
            if kept {
                c
            } else {
                '-'
            },
        );
        index = index + 1;
        assert(out@ =~= cleaned(stem@).take(index as int));
    }
    assert(out@ =~= cleaned(stem@));
    out
}

/// The folder a note from `source` is placed in.
///
/// Two files of one name in two places are two notes rather than one that overwrites the other, and
/// importing the same file twice lands in the same place.
pub fn folder_name(source: &str) -> (name: String)
    ensures
        name@ == folder_name_of(source@),
{
    let stem: String = match file_name(source) {
        Some(name) => name_stem(name.as_str()),
        None => String::from_str("note"),
    };
    let chars: Vec<char> = clean(stem.as_str());
    let ghost clean = chars@;
    let mut from: usize = 0;
    assert(clean.skip(0) =~= clean);
    while from < chars.len() && chars[from] == '-'
        invariant
            from <= chars@.len(),
            clean == chars@,
            without_leading_dashes(clean.skip(from as int)) == without_leading_dashes(clean),
        decreases chars@.len() - from,
    {
        assert(clean.skip(from as int).skip(1) =~= clean.skip(from + 1));
        from = from + 1;
    }
    let ghost tail = clean.skip(from as int);
    assert(without_leading_dashes(clean) == tail);
    let mut to: usize = chars.len();
    assert(tail.take(to - from) =~= tail);
    while to > from && chars[to - 1] == '-'
        invariant
            from <= to <= chars@.len(),
            clean == chars@,
            tail == clean.skip(from as int),
            without_trailing_dashes(tail.take(to - from)) == without_trailing_dashes(tail),
        decreases to,
    {
        assert(tail.take(to - from).drop_last() =~= tail.take(to - 1 - from));
        to = to - 1;
    }
    assert(tail.take(to - from) =~= chars@.subrange(from as int, to as int));
    let low: u64 = digest(source.as_bytes()) % 0x1_0000_0000;
    text_between(&chars, from, to).concat("-").concat(hex(low, 8).as_str())
}

/// A folder's name says which file it came from: it is the file's own stem, a dash, and eight
/// digits.
pub proof fn a_folder_is_named_after_its_file(source: Seq<char>)
    ensures
        folder_name_of(source).take(folder_stem(source).len() as int) == folder_stem(source),
        folder_name_of(source).len() == folder_stem(source).len() + 9,
        folder_name_of(source)[folder_stem(source).len() as int] == '-',
{
    reveal_strlit("-");
    reveal_with_fuel(hex_text, 9);
    let stem = folder_stem(source);
    assert(folder_name_of(source).take(stem.len() as int) =~= stem);
}

/// A digit of a number is a digit or one of the letters up to `f`.
proof fn hex_is_hex(value: nat, count: nat)
    ensures
        hex_text(value, count).len() == count,
        forall|i: int|
            0 <= i < count ==> is_ascii_letter_or_digit(#[trigger] hex_text(value, count)[i])
                && is_hex(hex_text(value, count)[i]),
    decreases count,
{
    if count > 0 {
        hex_is_hex(value / 16, (count - 1) as nat);
        let before = hex_text(value / 16, (count - 1) as nat);
        let all = hex_text(value, count);
        assert forall|i: int| 0 <= i < count implies is_ascii_letter_or_digit(#[trigger] all[i])
            && is_hex(all[i]) by {
            if i < count - 1 {
                assert(all[i] == before[i]);
            }
        }
    }
}

/// Whether a character is a hexadecimal digit, in either case.
pub open spec fn is_hex(c: char) -> bool {
    '0' <= c <= '9' || 'a' <= c <= 'f' || 'A' <= c <= 'F'
}

/// Trimming dashes leaves none but the characters there were.
proof fn trimming_keeps(text: Seq<char>)
    ensures
        ({
            let led = without_leading_dashes(text);
            let all = without_trailing_dashes(led);
            forall|i: int| 0 <= i < all.len() ==> text.contains(#[trigger] all[i])
        }),
{
    leading_dashes_go(text);
    let led = without_leading_dashes(text);
    trailing_dashes_go(led);
    let all = without_trailing_dashes(led);
    assert forall|i: int| 0 <= i < led.len() implies text.contains(#[trigger] led[i]) by {
        assert(led[i] == text[i + (text.len() - led.len())]);
    }
    assert forall|i: int| 0 <= i < all.len() implies text.contains(#[trigger] all[i]) by {
        assert(all[i] == led[i]);
        assert(text.contains(led[i]));
    }
}

/// Taking dashes off the start leaves the rest.
proof fn leading_dashes_go(text: Seq<char>)
    ensures
        without_leading_dashes(text).len() <= text.len(),
        without_leading_dashes(text) == text.skip(text.len() - without_leading_dashes(text).len()),
    decreases text.len(),
{
    if text.len() > 0 && text[0] == '-' {
        leading_dashes_go(text.skip(1));
        let rest = without_leading_dashes(text.skip(1));
        assert(text.skip(1).skip(text.skip(1).len() - rest.len()) =~= text.skip(
            text.len() - rest.len(),
        ));
    } else {
        assert(text.skip(0) =~= text);
    }
}

/// Taking dashes off the end leaves the rest.
proof fn trailing_dashes_go(text: Seq<char>)
    ensures
        without_trailing_dashes(text).len() <= text.len(),
        without_trailing_dashes(text) == text.take(without_trailing_dashes(text).len() as int),
    decreases text.len(),
{
    if text.len() > 0 && text.last() == '-' {
        trailing_dashes_go(text.drop_last());
        let rest = without_trailing_dashes(text.drop_last());
        assert(text.drop_last().take(rest.len() as int) =~= text.take(rest.len() as int));
    } else {
        assert(text.take(text.len() as int) =~= text);
    }
}

/// A folder's name is one a folder may have, whatever the file is called: letters, numbers, dashes and
/// underscores, so no separator, no dot, no colon and no space.
pub proof fn a_folder_name_is_allowed(source: Seq<char>)
    ensures
        forall|i: int|
            0 <= i < folder_name_of(source).len() ==> ({
                let c = #[trigger] folder_name_of(source)[i];
                &&& is_letter_or_number(c) || c == '-' || c == '_'
                &&& c != '/' && c != '\\' && c != '.' && c != ':' && c != ' '
            }),
{
    reveal_strlit("-");
    let name = folder_name_of(source);
    let stem = folder_stem(source);
    let given = match name_in(source) {
        Some(name) => stem_of_name(name),
        None => "note"@,
    };
    let clean = cleaned(given);
    let digest = digest_of(vstd::utf8::encode_utf8(source));
    let digits = hex_text((digest % 0x1_0000_0000) as nat, 8);
    trimming_keeps(clean);
    hex_is_hex((digest % 0x1_0000_0000) as nat, 8);
    assert forall|i: int| 0 <= i < name.len() implies ({
        let c = #[trigger] name[i];
        &&& is_letter_or_number(c) || c == '-' || c == '_'
        &&& c != '/' && c != '\\' && c != '.' && c != ':' && c != ' '
    }) by {
        if i < stem.len() {
            assert(name[i] == stem[i]);
            assert(clean.contains(stem[i]));
            let k = choose|k: int| 0 <= k < clean.len() && clean[k] == stem[i];
            assert(clean[k] == folder_char(given[k]));
        } else if i > stem.len() {
            assert(name[i] == digits[i - stem.len() - 1]);
        }
    }
}

/// A folder's name ends in eight hexadecimal digits after its last dash, and what stands before that
/// is the file's stem.
pub proof fn a_folder_name_splits_at_its_digest(source: Seq<char>)
    ensures
        split_at_last(folder_name_of(source), '-') == Some(
            (
                folder_stem(source),
                folder_name_of(source).skip((folder_stem(source).len() + 1) as int),
            ),
        ),
        folder_name_of(source).len() == folder_stem(source).len() + 9,
        forall|i: int|
            folder_stem(source).len() < i < folder_name_of(source).len() ==> is_hex(
                #[trigger] folder_name_of(source)[i],
            ),
{
    reveal_strlit("-");
    let name = folder_name_of(source);
    let stem = folder_stem(source);
    let digest = digest_of(vstd::utf8::encode_utf8(source));
    let digits = hex_text((digest % 0x1_0000_0000) as nat, 8);
    hex_is_hex((digest % 0x1_0000_0000) as nat, 8);
    assert forall|i: int| stem.len() < i < name.len() implies is_hex(#[trigger] name[i])
        && name[i] != '-' by {
        assert(name[i] == digits[i - stem.len() - 1]);
    }
    assert(name[stem.len() as int] == '-');
    last_place_is(name, '-', stem.len() as int, name.len() as int);
    assert(name.take(stem.len() as int) =~= stem);
}

/// Where a character stands last.
proof fn last_place_is(text: Seq<char>, c: char, at: int, end: int)
    requires
        0 <= at < end <= text.len(),
        text[at] == c,
        forall|i: int| at < i < end ==> text[i] != c,
    ensures
        last_place(text, c, end) == Some(at),
    decreases end,
{
    if end - 1 > at {
        last_place_is(text, c, at, end - 1);
    }
}

// ---------------------------------------------------------------------------------------------
// The file a note is written out as
// ---------------------------------------------------------------------------------------------

/// The most characters a file is called by.
pub const STEM_MAX: usize = 64;

/// Whether a character is one a file may not be called by.
pub open spec fn is_reserved(c: char) -> bool {
    c == '/' || c == '\\' || c == ':' || c == '*' || c == '?' || c == '"' || c == '<' || c == '>'
        || c == '|'
}

/// A reserved character as a dash and a control character as a space; any other as it is.
pub open spec fn tidied(c: char) -> char {
    if is_reserved(c) {
        '-'
    } else if is_control_code(c) {
        ' '
    } else {
        c
    }
}

/// A text tidied, with every run of white space one space; and whether it ends in one.
pub open spec fn collapsed(text: Seq<char>) -> (Seq<char>, bool)
    decreases text.len(),
{
    if text.len() == 0 {
        (seq![], false)
    } else {
        let (before, spaced) = collapsed(text.drop_last());
        let c = tidied(text.last());
        if is_white(c) {
            if spaced {
                (before, true)
            } else {
                (before.push(' '), true)
            }
        } else {
            (before.push(c), false)
        }
    }
}

/// Whether a character goes where it stands at either end of a name: white space, and a dot.
pub open spec fn is_trimmed(c: char) -> bool {
    is_white(c) || c == '.'
}

/// A text without the dots and the white space at its start.
pub open spec fn without_leading_dots(text: Seq<char>) -> Seq<char>
    decreases text.len(),
{
    if text.len() > 0 && is_trimmed(text[0]) {
        without_leading_dots(text.skip(1))
    } else {
        text
    }
}

/// A text without the dots and the white space at its end.
pub open spec fn without_trailing_dots(text: Seq<char>) -> Seq<char>
    decreases text.len(),
{
    if text.len() > 0 && is_trimmed(text.last()) {
        without_trailing_dots(text.drop_last())
    } else {
        text
    }
}

/// No more than the first characters of a text.
pub open spec fn cut(text: Seq<char>, most: int) -> Seq<char> {
    if text.len() > most {
        text.take(most)
    } else {
        text
    }
}

/// What a note's name is as far as a file name goes.
pub open spec fn file_stem_of(title: Seq<char>) -> Seq<char> {
    let trimmed = without_trailing_dots(without_leading_dots(collapsed(title).0));
    without_trailing_dots(cut(trimmed, STEM_MAX as int))
}

/// A text tidied, with every run of white space one space.
fn collapse(title: &str) -> (chars: Vec<char>)
    ensures
        chars@ == collapsed(title@).0,
{
    let chars: Vec<char> = chars_of(title);
    let mut out: Vec<char> = Vec::new();
    let mut spaced: bool = false;
    let mut index: usize = 0;
    assert(title@.take(0) =~= seq![]);
    while index < chars.len()
        invariant
            index <= chars@.len(),
            chars@ == title@,
            (out@, spaced) == collapsed(title@.take(index as int)),
        decreases chars@.len() - index,
    {
        assert(title@.take(index + 1).drop_last() =~= title@.take(index as int));
        assert(title@.take(index + 1).last() == title@[index as int]);
        let given: char = chars[index];
        let reserved: bool = given == '/' || given == '\\' || given == ':' || given == '*' || given
            == '?' || given == '"' || given == '<' || given == '>' || given == '|';
        let c: char = if reserved {
            '-'
        } else if given.is_control() {
            ' '
        } else {
            given
        };
        if c.is_whitespace() {
            if !spaced {
                out.push(' ');
            }
            spaced = true;
        } else {
            out.push(c);
            spaced = false;
        }
        index = index + 1;
    }
    assert(title@.take(index as int) =~= title@);
    out
}

/// Whether a character goes where it stands at either end of a name.
fn goes(c: char) -> (goes: bool)
    ensures
        goes == is_trimmed(c),
{
    c.is_whitespace() || c == '.'
}

/// Where a run ends without the dots and the white space at its end.
fn trimmed_end(chars: &Vec<char>, from: usize, to: usize) -> (end: usize)
    requires
        from <= to <= chars@.len(),
    ensures
        from <= end <= to,
        chars@.subrange(from as int, end as int) == without_trailing_dots(
            chars@.subrange(from as int, to as int),
        ),
{
    let mut end: usize = to;
    while end > from && goes(chars[end - 1])
        invariant
            from <= end <= to <= chars@.len(),
            without_trailing_dots(chars@.subrange(from as int, end as int))
                == without_trailing_dots(chars@.subrange(from as int, to as int)),
        decreases end,
    {
        assert(chars@.subrange(from as int, end as int).drop_last() =~= chars@.subrange(
            from as int,
            end - 1,
        ));
        end = end - 1;
    }
    end
}

/// What a note's name can be as far as a file name goes.
///
/// A name is free text and a file name is not: the characters a file system refuses become dashes, a
/// run of white space becomes one space, and a dot or a space at either end goes. Long names are cut
/// by characters, not bytes.
pub fn file_stem(title: &str) -> (stem: String)
    ensures
        stem@ == file_stem_of(title@),
{
    let chars: Vec<char> = collapse(title);
    let ghost tidy = chars@;
    let mut from: usize = 0;
    assert(tidy.skip(0) =~= tidy);
    while from < chars.len() && goes(chars[from])
        invariant
            from <= chars@.len(),
            tidy == chars@,
            without_leading_dots(tidy.skip(from as int)) == without_leading_dots(tidy),
        decreases chars@.len() - from,
    {
        assert(tidy.skip(from as int).skip(1) =~= tidy.skip(from + 1));
        from = from + 1;
    }
    assert(without_leading_dots(tidy) == tidy.skip(from as int));
    assert(tidy.skip(from as int) =~= chars@.subrange(from as int, chars@.len() as int));
    let end: usize = trimmed_end(&chars, from, chars.len());
    let most: usize = if end - from > STEM_MAX {
        from + STEM_MAX
    } else {
        end
    };
    assert(cut(chars@.subrange(from as int, end as int), STEM_MAX as int) =~= chars@.subrange(
        from as int,
        most as int,
    ));
    let last: usize = trimmed_end(&chars, from, most);
    text_between(&chars, from, last)
}

/// Taking dots and white space off the start leaves the rest, with neither at its start.
proof fn leading_dots_go(text: Seq<char>)
    ensures
        without_leading_dots(text).len() <= text.len(),
        without_leading_dots(text) == text.skip(text.len() - without_leading_dots(text).len()),
        without_leading_dots(text).len() > 0 ==> !is_trimmed(without_leading_dots(text)[0]),
    decreases text.len(),
{
    if text.len() > 0 && is_trimmed(text[0]) {
        leading_dots_go(text.skip(1));
        let rest = without_leading_dots(text.skip(1));
        assert(text.skip(1).skip(text.skip(1).len() - rest.len()) =~= text.skip(
            text.len() - rest.len(),
        ));
    } else {
        assert(text.skip(0) =~= text);
    }
}

/// Taking dots and white space off the end leaves the rest, with neither at its end.
proof fn trailing_dots_go(text: Seq<char>)
    ensures
        without_trailing_dots(text).len() <= text.len(),
        without_trailing_dots(text) == text.take(without_trailing_dots(text).len() as int),
        without_trailing_dots(text).len() > 0 ==> !is_trimmed(without_trailing_dots(text).last()),
    decreases text.len(),
{
    if text.len() > 0 && is_trimmed(text.last()) {
        trailing_dots_go(text.drop_last());
        let rest = without_trailing_dots(text.drop_last());
        assert(text.drop_last().take(rest.len() as int) =~= text.take(rest.len() as int));
    } else {
        assert(text.take(text.len() as int) =~= text);
    }
}

/// A tidied text holds no reserved character.
proof fn tidied_is_allowed(title: Seq<char>)
    ensures
        forall|i: int|
            0 <= i < collapsed(title).0.len() ==> !is_reserved(#[trigger] collapsed(title).0[i]),
    decreases title.len(),
{
    if title.len() > 0 {
        let before = collapsed(title.drop_last()).0;
        let all = collapsed(title).0;
        tidied_is_allowed(title.drop_last());
        assert forall|i: int| 0 <= i < all.len() implies !is_reserved(#[trigger] all[i]) by {
            if i < before.len() {
                assert(all[i] == before[i]);
            }
        }
    }
}

/// Whatever a note is called, the file it is written out as has a name a file system takes: no
/// reserved character, no more than 64 characters, and no dot and no white space at either end.
pub proof fn a_file_name_is_allowed(title: Seq<char>)
    ensures
        forall|i: int|
            0 <= i < file_stem_of(title).len() ==> !is_reserved(#[trigger] file_stem_of(title)[i]),
        file_stem_of(title).len() <= STEM_MAX,
        file_stem_of(title).len() > 0 ==> !is_trimmed(file_stem_of(title)[0]) && !is_trimmed(
            file_stem_of(title).last(),
        ),
{
    tidied_is_allowed(title);
    let tidy = collapsed(title).0;
    let led = without_leading_dots(tidy);
    let trimmed = without_trailing_dots(led);
    let short = cut(trimmed, STEM_MAX as int);
    let stem = file_stem_of(title);
    leading_dots_go(tidy);
    trailing_dots_go(led);
    trailing_dots_go(short);
    assert forall|i: int| 0 <= i < stem.len() implies stem[i] == led[i] && !is_reserved(
        #[trigger] stem[i],
    ) by {
        assert(stem[i] == short[i]);
        assert(short[i] == trimmed[i]);
        assert(trimmed[i] == led[i]);
        assert(led[i] == tidy[i + (tidy.len() - led.len())]);
    }
}

/// The name a file about a note should suggest: the name a person gave it, or the document's own
/// without its extension, or the word "note".
pub open spec fn note_stem_of(title: Seq<char>, document: Option<Seq<char>>) -> Seq<char> {
    let named = file_stem_of(title);
    if named.len() > 0 {
        named
    } else {
        match document {
            Some(name) => stem_of_name(name),
            None => "note"@,
        }
    }
}

/// The name a file about a note should suggest.
pub fn note_stem(title: &str, document: Option<&str>) -> (stem: String)
    ensures
        stem@ == note_stem_of(
            title@,
            match document {
                Some(name) => Some(name@),
                None => None,
            },
        ),
{
    let named: String = file_stem(title);
    if !named.as_str().is_empty() {
        return named;
    }
    match document {
        Some(name) => name_stem(name),
        None => String::from_str("note"),
    }
}

// ---------------------------------------------------------------------------------------------
// What the names promise
// ---------------------------------------------------------------------------------------------

/// A file name is its stem, a dot and its extension: the extension is what follows the last dot. A name
/// without a dot has none, and neither has one that only starts with a dot.
pub proof fn a_name_is_a_stem_and_an_extension(stem: Seq<char>, extension: Seq<char>)
    requires
        !extension.contains('.'),
    ensures
        stem.len() > 0 ==> stem_of_name(stem.push('.') + extension) == stem && extension_of_name(
            stem.push('.') + extension,
        ) == Some(extension),
        stem_of_name(extension) == extension,
        extension_of_name(extension) is None,
        stem_of_name(seq!['.'] + extension) == seq!['.'] + extension,
        extension_of_name(seq!['.'] + extension) is None,
{
    crate::text::a_split_undoes_a_join(stem, '.', extension);
    crate::text::a_text_is_split_at_the_last(extension, '.');
    crate::text::a_split_undoes_a_join(seq![], '.', extension);
    assert(Seq::<char>::empty().push('.') + extension =~= seq!['.'] + extension);
}

/// A path has the extension of the file it leads to, and is called by that file's name; a path that leads to
/// no name has no extension, and is called as it is written.
pub proof fn a_path_is_called_by_its_file(path: Seq<char>)
    ensures
        name_in(path) matches Some(name) ==> extension_in(path) == extension_of_name(name)
            && file_label_of(path) == name,
        name_in(path) is None ==> extension_in(path) is None && file_label_of(path) == path,
{
}

/// A text in lower case is as long, and each of its capital letters is the small one; nothing else changes.
pub proof fn lower_case_changes_capitals(text: Seq<char>, i: int)
    requires
        0 <= i < text.len(),
    ensures
        ascii_lowered(text).len() == text.len(),
        'A' <= text[i] <= 'Z' ==> ascii_lowered(text)[i] as int - 'a' as int == text[i] as int - 'A'
            as int,
        !('A' <= text[i] <= 'Z') ==> ascii_lowered(text)[i] == text[i],
{
}

/// A folder is called by what it can be: a letter, a number, a dash or an underscore stays, and anything else
/// is a dash.
pub proof fn a_character_a_folder_cannot_have_is_a_dash(text: Seq<char>, i: int)
    requires
        0 <= i < text.len(),
    ensures
        cleaned(text).len() == text.len(),
        is_letter_or_number(text[i]) || text[i] == '_' ==> cleaned(text)[i] == text[i],
        !is_letter_or_number(text[i]) && text[i] != '_' ==> cleaned(text)[i] == '-',
        'a' <= text[i] <= 'z' || 'A' <= text[i] <= 'Z' || '0' <= text[i] <= '9' ==> cleaned(text)[i]
            == text[i],
{
}

/// Taking dashes off the start takes dashes alone, and all of them.
proof fn only_leading_dashes_go(text: Seq<char>)
    ensures
        ({
            let led = without_leading_dashes(text);
            &&& led.len() > 0 ==> led[0] != '-'
            &&& forall|i: int| 0 <= i < text.len() - led.len() ==> #[trigger] text[i] == '-'
        }),
    decreases text.len(),
{
    leading_dashes_go(text);
    if text.len() > 0 && text[0] == '-' {
        let rest = text.skip(1);
        only_leading_dashes_go(rest);
        let led = without_leading_dashes(text);
        assert forall|i: int| 0 <= i < text.len() - led.len() implies #[trigger] text[i] == '-' by {
            if i > 0 {
                assert(text[i] == rest[i - 1]);
            }
        }
    }
}

/// Taking dashes off the end takes dashes alone, and all of them.
proof fn only_trailing_dashes_go(text: Seq<char>)
    ensures
        ({
            let cut = without_trailing_dashes(text);
            &&& cut.len() > 0 ==> cut.last() != '-'
            &&& forall|i: int| cut.len() <= i < text.len() ==> #[trigger] text[i] == '-'
        }),
    decreases text.len(),
{
    trailing_dashes_go(text);
    if text.len() > 0 && text.last() == '-' {
        let rest = text.drop_last();
        only_trailing_dashes_go(rest);
        let cut = without_trailing_dashes(text);
        assert forall|i: int| cut.len() <= i < text.len() implies #[trigger] text[i] == '-' by {
            if i < rest.len() {
                assert(text[i] == rest[i]);
            }
        }
    }
}

/// Whether a text stands in another from a place on, and all that stands around it is dashes.
pub open spec fn is_between_dashes(text: Seq<char>, part: Seq<char>, from: int) -> bool {
    &&& 0 <= from <= text.len() - part.len()
    &&& part == text.subrange(from, from + part.len())
    &&& forall|i: int| 0 <= i < from ==> #[trigger] text[i] == '-'
    &&& forall|i: int| from + part.len() <= i < text.len() ==> #[trigger] text[i] == '-'
}

/// A note's folder is called after its file: the stem of the file's name as a folder can have it, between the
/// dashes at its ends, if there are any; and after the word "note" where the path leads to no name.
pub proof fn a_folder_stem_is_the_file_stem(source: Seq<char>)
    ensures
        name_in(source) matches Some(name) ==> exists|from: int| #[trigger]
            is_between_dashes(cleaned(stem_of_name(name)), folder_stem(source), from),
        name_in(source) is None ==> exists|from: int| #[trigger]
            is_between_dashes(cleaned("note"@), folder_stem(source), from),
        folder_stem(source).len() > 0 ==> folder_stem(source)[0] != '-' && folder_stem(source).last()
            != '-',
{
    let given = match name_in(source) {
        Some(name) => cleaned(stem_of_name(name)),
        None => cleaned("note"@),
    };
    let led = without_leading_dashes(given);
    let stem = folder_stem(source);
    leading_dashes_go(given);
    trailing_dashes_go(led);
    only_leading_dashes_go(given);
    only_trailing_dashes_go(led);
    let from = given.len() - led.len();
    assert(stem =~= given.subrange(from, from + stem.len()));
    assert forall|i: int| from + stem.len() <= i < given.len() implies #[trigger] given[i] == '-' by {
        assert(given[i] == led[i - from]);
    }
    assert(stem.len() > 0 ==> stem[0] == led[0]);
    assert(is_between_dashes(given, stem, from));
}

/// The number a run of hexadecimal digits in lower case stands for.
pub open spec fn hex_number_of(digits: Seq<char>) -> int
    decreases digits.len(),
{
    if digits.len() == 0 {
        0
    } else {
        let c = digits.last();
        16 * hex_number_of(digits.drop_last()) + if c <= '9' {
            c as int - '0' as int
        } else {
            10 + (c as int - 'a' as int)
        }
    }
}

/// A number's hexadecimal digits read back as it was, where there is room for them.
pub proof fn a_hex_number_reads_back(value: nat, count: nat)
    requires
        value < vstd::arithmetic::power::pow(16, count),
    ensures
        hex_text(value, count).len() == count,
        hex_number_of(hex_text(value, count)) == value,
    decreases count,
{
    vstd::arithmetic::power::lemma_pow0(16);
    hex_is_hex(value, count);
    if count > 0 {
        let less = (count - 1) as nat;
        let text = hex_text(value, count);
        reveal(vstd::arithmetic::power::pow);
        assert(vstd::arithmetic::power::pow(16, count) == 16 * vstd::arithmetic::power::pow(16, less));
        a_hex_number_reads_back(value / 16, less);
        assert(text.drop_last() =~= hex_text(value / 16, less));
        assert(text.last() == hex_char((value % 16) as int));
        let d = value % 16;
        assert(d < 10 ==> hex_char(d as int) as int == '0' as int + d);
        assert(d >= 10 ==> hex_char(d as int) as int == 'a' as int + d - 10);
    }
}

/// The digest of a path starts from the offset of FNV-1a and takes in one byte after the other: each is mixed
/// in and multiplied by its prime, in sixty-four bits. A folder's name ends in the low half of it.
pub proof fn a_digest_takes_in_byte_after_byte(bytes: Seq<u8>, byte: u8, source: Seq<char>)
    ensures
        digest_of(Seq::<u8>::empty()) == 0xcbf2_9ce4_8422_2325,
        digest_of(bytes.push(byte)) == ((digest_of(bytes) ^ (byte as u64)) * 0x100_0000_01b3)
            % 0x1_0000_0000_0000_0000,
        hex_number_of(folder_name_of(source).skip(folder_name_of(source).len() - 8)) == digest_of(
            vstd::utf8::encode_utf8(source),
        ) % 0x1_0000_0000,
{
    assert(bytes.push(byte).drop_last() =~= bytes);
    reveal_strlit("-");
    let digest = digest_of(vstd::utf8::encode_utf8(source));
    let low = (digest % 0x1_0000_0000) as nat;
    assert(vstd::arithmetic::power::pow(16, 8) == 0x1_0000_0000) by {
        reveal_with_fuel(vstd::arithmetic::power::pow, 9);
    }
    a_hex_number_reads_back(low, 8);
    let name = folder_name_of(source);
    assert(name.skip(name.len() - 8) =~= hex_text(low, 8));
}

/// A title is tidied one character after the other: one a file may not be called by is a dash, and a control
/// character is a space; white space is one space however much of it there is; any other stays.
pub proof fn a_title_is_tidied(title: Seq<char>, c: char)
    ensures
        collapsed(Seq::<char>::empty()).0.len() == 0,
        c == '/' || c == '\\' || c == ':' || c == '*' || c == '?' || c == '"' || c == '<' || c == '>'
            || c == '|' ==> collapsed(title.push(c)).0 == collapsed(title).0.push('-')
            && !collapsed(title.push(c)).1,
        is_white(c) || is_control_code(c) ==> collapsed(title.push(c)).1 && collapsed(
            title.push(c),
        ).0 == (if collapsed(title).1 {
            collapsed(title).0
        } else {
            collapsed(title).0.push(' ')
        }),
        !is_white(c) && !is_control_code(c) && c != '/' && c != '\\' && c != ':' && c != '*' && c
            != '?' && c != '"' && c != '<' && c != '>' && c != '|' ==> collapsed(title.push(c)).0
            == collapsed(title).0.push(c) && !collapsed(title.push(c)).1,
{
    assert(title.push(c).drop_last() =~= title);
}

/// Whether a title is one a file may be called by as it is: it has no character a file may not be called by, no
/// white space but single spaces, and no space and no dot at either end.
pub open spec fn is_tidy(title: Seq<char>) -> bool {
    &&& forall|i: int|
        0 <= i < title.len() ==> !is_control_code(#[trigger] title[i]) && title[i] != '/' && title[i]
            != '\\' && title[i] != ':' && title[i] != '*' && title[i] != '?' && title[i] != '"'
            && title[i] != '<' && title[i] != '>' && title[i] != '|'
    &&& forall|i: int|
        0 <= i < title.len() ==> is_white(#[trigger] title[i]) ==> title[i] == ' ' && i > 0
            && title[i - 1] != ' '
    &&& title.len() > 0 ==> title[0] != '.' && title.last() != '.' && title.last() != ' '
}

/// A tidy text is not changed by tidying it.
proof fn tidying_leaves_what_is_tidy(title: Seq<char>, n: int)
    requires
        is_tidy(title),
        0 <= n <= title.len(),
    ensures
        collapsed(title.take(n)).0 == title.take(n),
        collapsed(title.take(n)).1 == (n > 0 && title[n - 1] == ' '),
    decreases n,
{
    if n > 0 {
        tidying_leaves_what_is_tidy(title, n - 1);
        assert(title.take(n).drop_last() =~= title.take(n - 1));
        assert(title.take(n).last() == title[n - 1]);
        assert(title.take(n - 1).push(title[n - 1]) =~= title.take(n));
        assert(!is_control_code(title[n - 1]));
        assert(is_white(' '));
    } else {
        assert(title.take(0) =~= seq![]);
    }
}

/// A title a file may be called by is the name of the file as it is; a longer one is cut after sixty-four
/// characters, without what may not stand at the end.
pub proof fn a_tidy_title_names_its_file(title: Seq<char>)
    requires
        is_tidy(title),
    ensures
        title.len() <= 64 ==> file_stem_of(title) == title,
        title.len() > 64 ==> file_stem_of(title).len() <= 64 && file_stem_of(title) == title.take(
            file_stem_of(title).len() as int,
        ) && forall|i: int|
            file_stem_of(title).len() <= i < 64 ==> #[trigger] title[i] == ' ' || title[i] == '.',
{
    tidying_leaves_what_is_tidy(title, title.len() as int);
    assert(title.take(title.len() as int) =~= title);
    if title.len() > 0 {
        assert(!is_white(title[0]));
        assert(!is_white(title.last())) by {
            assert(title[title.len() - 1] == title.last());
        }
        let short = cut(title, 64);
        assert(without_leading_dots(title) == title);
        assert(without_trailing_dots(title) == title);
        trailing_dots_go(short);
        only_trailing_dots_go(short);
        if title.len() > 64 {
            let stem = file_stem_of(title);
            assert(stem =~= title.take(stem.len() as int));
            assert forall|i: int| stem.len() <= i < 64 implies #[trigger] title[i] == ' ' || title[i]
                == '.' by {
                assert(short[i] == title[i]);
            }
        }
    }
}

/// Taking dots and white space off the end takes nothing else.
proof fn only_trailing_dots_go(text: Seq<char>)
    ensures
        forall|i: int|
            without_trailing_dots(text).len() <= i < text.len() ==> is_trimmed(#[trigger] text[i]),
    decreases text.len(),
{
    trailing_dots_go(text);
    if text.len() > 0 && is_trimmed(text.last()) {
        let rest = text.drop_last();
        only_trailing_dots_go(rest);
        assert forall|i: int| without_trailing_dots(text).len() <= i < text.len() implies is_trimmed(
            #[trigger] text[i],
        ) by {
            if i < rest.len() {
                assert(text[i] == rest[i]);
            }
        }
    }
}

/// A file about a note is called what the person called it; a note without a name is called after its document,
/// without the extension, and one without either is called a note.
pub proof fn a_note_names_its_file(title: Seq<char>, stem: Seq<char>, extension: Seq<char>)
    requires
        stem.len() > 0,
        !extension.contains('.'),
    ensures
        file_stem_of(title).len() > 0 ==> note_stem_of(title, Some(stem.push('.') + extension))
            == file_stem_of(title) && note_stem_of(title, None) == file_stem_of(title),
        file_stem_of(title).len() == 0 ==> note_stem_of(title, Some(stem.push('.') + extension))
            == stem,
        file_stem_of(title).len() == 0 ==> note_stem_of(title, None) == "note"@,
{
    a_name_is_a_stem_and_an_extension(stem, extension);
}

/// A file is not called by a character that separates folders, names a drive or stands for others, nor by a
/// control character; and its name has no dot and no white space at either end.
pub proof fn a_file_name_has_no_such_character(title: Seq<char>, c: char, i: int)
    requires
        0 <= i < file_stem_of(title).len(),
    ensures
        is_control_code(c) <==> c as int <= 0x1f || 0x7f <= c as int <= 0x9f,
        is_reserved(c) <==> c == '/' || c == '\\' || c == ':' || c == '*' || c == '?' || c == '"' || c
            == '<' || c == '>' || c == '|',
        is_trimmed(c) <==> is_white(c) || c == '.',
        file_stem_of(title)[i] != '/' && file_stem_of(title)[i] != '\\' && file_stem_of(title)[i]
            != ':' && file_stem_of(title)[i] != '"',
        file_stem_of(title)[0] != '.' && file_stem_of(title).last() != '.',
        file_stem_of(title)[0] != ' ' && file_stem_of(title).last() != ' ',
        file_stem_of(title).len() <= 64,
{
    a_file_name_is_allowed(title);
    assert(!is_reserved(file_stem_of(title)[i]));
    assert(is_white(' '));
}

} // verus!
