//! Text: the views that the contracts of this library speak of, and the string operations that
//! the rest of it is written with.
use vstd::prelude::*;
use vstd::utf8::*;

verus! {

/// `String::push`: appends the character to the end of the string.
pub assume_specification[ String::push ](s: &mut String, c: char)
    ensures
        final(s)@ == old(s)@.push(c),
;

/// Whether a character beyond ASCII has the Unicode property White_Space.
pub uninterp spec fn unicode_white_space(c: char) -> bool;

/// The white space of ASCII: space, tab, line feed, vertical tab, form feed, carriage return.
pub open spec fn ascii_white_space(c: char) -> bool {
    c == ' ' || '\t' <= c <= '\r'
}

/// What `trim` takes away at either end of a text.
pub open spec fn is_white(c: char) -> bool {
    if c <= '\u{7f}' {
        ascii_white_space(c)
    } else {
        unicode_white_space(c)
    }
}

/// `char::is_whitespace`: true of the characters with the Unicode property White_Space. Within
/// ASCII these are the space and the characters from tab to carriage return; beyond ASCII the
/// property is left to its name.
pub assume_specification[ char::is_whitespace ](c: char) -> (white: bool)
    ensures
        white == (if c <= '\u{7f}' { ascii_white_space(c) } else { unicode_white_space(c) }),
;

/// The characters of a string.
pub fn chars_of(s: &str) -> (chars: Vec<char>)
    ensures
        chars@ == s@,
{
    let mut chars: Vec<char> = Vec::new();
    for c in it: s.chars()
        invariant
            chars@ == s@.take(it.index() as int),
            it.seq() == s@,
    {
        chars.push(c);
    }
    chars
}

/// The string that the characters from `from` up to `to` spell.
pub fn text_of(chars: &Vec<char>, from: usize, to: usize) -> (text: String)
    requires
        from <= to <= chars@.len(),
    ensures
        text@ == chars@.subrange(from as int, to as int),
{
    let mut text = String::new();
    let mut i: usize = from;
    while i < to
        invariant
            from <= i <= to <= chars@.len(),
            text@ == chars@.subrange(from as int, i as int),
        decreases to - i,
    {
        text.push(chars[i]);
        i += 1;
    }
    text
}

/// Whether two strings are the same text.
pub fn same_text(a: &str, b: &str) -> (same: bool)
    ensures
        same == (a@ == b@),
{
    let left = a.as_bytes();
    let right = b.as_bytes();
    proof {
        encode_utf8_decode_utf8(a@);
        encode_utf8_decode_utf8(b@);
    }
    if left.len() != right.len() {
        return false;
    }
    let mut i: usize = 0;
    while i < left.len()
        invariant
            i <= left@.len() == right@.len(),
            left@ == encode_utf8(a@),
            right@ == encode_utf8(b@),
            forall|j: int| 0 <= j < i ==> left@[j] == right@[j],
        decreases left@.len() - i,
    {
        if left[i] != right[i] {
            return false;
        }
        i += 1;
    }
    assert(left@ =~= right@);
    true
}

/// Where the character first occurs in the text; its length where it does not.
pub open spec fn index_of(s: Seq<char>, c: char) -> int
    decreases s.len(),
{
    if s.len() == 0 || s[0] == c {
        0
    } else {
        1 + index_of(s.drop_first(), c)
    }
}

proof fn lemma_index_of(s: Seq<char>, c: char, at: int)
    requires
        0 <= at <= s.len(),
        forall|j: int| 0 <= j < at ==> s[j] != c,
        at < s.len() ==> s[at] == c,
    ensures
        index_of(s, c) == at,
    decreases s.len(),
{
    if at > 0 {
        lemma_index_of(s.drop_first(), c, at - 1);
    }
}

/// The line without the carriage return that a line feed followed.
pub open spec fn without_return(line: Seq<char>) -> Seq<char> {
    if line.len() > 0 && line.last() == '\r' {
        line.drop_last()
    } else {
        line
    }
}

/// The lines of a text. A line ends at a line feed, which a carriage return may precede; neither
/// belongs to the line. A last line without a line feed is a line where it is not empty.
pub open spec fn lines_of(s: Seq<char>) -> Seq<Seq<char>>
    decreases s.len(),
{
    let end = index_of(s, '\n');
    if s.len() == 0 {
        Seq::empty()
    } else if 0 <= end < s.len() {
        seq![without_return(s.take(end))] + lines_of(s.skip(end + 1))
    } else {
        seq![s]
    }
}

/// The lines of a text.
pub fn lines(s: &str) -> (lines: Vec<String>)
    ensures
        lines.deep_view() == lines_of(s@),
{
    let chars = chars_of(s);
    let mut lines: Vec<String> = Vec::new();
    let mut start: usize = 0;
    let mut i: usize = 0;
    assert(s@.skip(0) =~= s@);
    assert(lines.deep_view() + lines_of(s@) =~= lines_of(s@));
    while i < chars.len()
        invariant
            start <= i <= chars@.len(),
            chars@ == s@,
            lines.deep_view() + lines_of(s@.skip(start as int)) == lines_of(s@),
            forall|j: int| start <= j < i ==> s@[j] != '\n',
        decreases chars@.len() - i,
    {
        if chars[i] == '\n' {
            let end: usize = if i > start && chars[i - 1] == '\r' {
                i - 1
            } else {
                i
            };
            let line = text_of(&chars, start, end);
            let ghost before = lines.deep_view();
            let ghost rest = s@.skip(start as int);
            lines.push(line);
            proof {
                lemma_index_of(rest, '\n', i - start);
                assert(rest.take(i - start) =~= s@.subrange(start as int, i as int));
                assert(line@ =~= without_return(rest.take(i - start)));
                assert(rest.skip(i - start + 1) =~= s@.skip(i + 1));
                assert(lines.deep_view() =~= before.push(line@));
                assert(lines.deep_view() + lines_of(s@.skip(i + 1)) =~= before + lines_of(rest));
            }
            start = i + 1;
        }
        i += 1;
    }
    if start < chars.len() {
        let line = text_of(&chars, start, chars.len());
        let ghost before = lines.deep_view();
        let ghost rest = s@.skip(start as int);
        lines.push(line);
        proof {
            lemma_index_of(rest, '\n', rest.len() as int);
            assert(line@ =~= rest);
            assert(lines.deep_view() =~= before + lines_of(rest));
        }
    } else {
        assert(lines.deep_view() + lines_of(s@.skip(start as int)) =~= lines.deep_view());
    }
    lines
}

/// The parts one after another, with the separator between them.
pub open spec fn joined(parts: Seq<Seq<char>>, separator: Seq<char>) -> Seq<char>
    decreases parts.len(),
{
    if parts.len() == 0 {
        Seq::empty()
    } else if parts.len() == 1 {
        parts[0]
    } else {
        joined(parts.drop_last(), separator) + separator + parts.last()
    }
}

/// Joins the parts with the separator between them.
pub fn join(parts: &Vec<String>, separator: &str) -> (text: String)
    ensures
        text@ == joined(parts.deep_view(), separator@),
{
    let mut text = String::new();
    let mut i: usize = 0;
    while i < parts.len()
        invariant
            i <= parts@.len(),
            text@ == joined(parts.deep_view().take(i as int), separator@),
        decreases parts@.len() - i,
    {
        if i > 0 {
            text.append(separator);
        }
        text.append(parts[i].as_str());
        proof {
            let upto = parts.deep_view().take(i + 1);
            assert(upto.drop_last() =~= parts.deep_view().take(i as int));
            assert(upto.last() == parts@[i as int]@);
            if i == 0 {
                assert(text@ =~= parts@[0]@);
            }
        }
        i += 1;
    }
    assert(parts.deep_view().take(i as int) =~= parts.deep_view());
    text
}

/// The text without the white space at its start.
pub open spec fn trim_start_of(s: Seq<char>) -> Seq<char>
    decreases s.len(),
{
    if s.len() > 0 && is_white(s[0]) {
        trim_start_of(s.drop_first())
    } else {
        s
    }
}

/// The text without the white space at its end.
pub open spec fn trim_end_of(s: Seq<char>) -> Seq<char>
    decreases s.len(),
{
    if s.len() > 0 && is_white(s.last()) {
        trim_end_of(s.drop_last())
    } else {
        s
    }
}

/// The text without the white space at its ends.
pub open spec fn trimmed(s: Seq<char>) -> Seq<char> {
    trim_end_of(trim_start_of(s))
}

/// The text without the occurrences of the character at its end.
pub open spec fn trim_end_char_of(s: Seq<char>, c: char) -> Seq<char>
    decreases s.len(),
{
    if s.len() > 0 && s.last() == c {
        trim_end_char_of(s.drop_last(), c)
    } else {
        s
    }
}

/// Takes the white space off both ends.
pub fn trim(s: &str) -> (text: String)
    ensures
        text@ == trimmed(s@),
{
    let chars = chars_of(s);
    let mut from: usize = 0;
    assert(s@.skip(0) =~= s@);
    while from < chars.len() && chars[from].is_whitespace()
        invariant
            from <= chars@.len(),
            chars@ == s@,
            trim_start_of(s@) == trim_start_of(s@.skip(from as int)),
        decreases chars@.len() - from,
    {
        assert(s@.skip(from as int).drop_first() =~= s@.skip(from + 1));
        from += 1;
    }
    let ghost rest = s@.skip(from as int);
    let mut to: usize = chars.len();
    assert(rest =~= s@.subrange(from as int, to as int));
    while to > from && chars[to - 1].is_whitespace()
        invariant
            from <= to <= chars@.len(),
            chars@ == s@,
            trim_end_of(rest) == trim_end_of(s@.subrange(from as int, to as int)),
        decreases to - from,
    {
        assert(s@.subrange(from as int, to as int).drop_last() =~= s@.subrange(
            from as int,
            to - 1,
        ));
        to -= 1;
    }
    text_of(&chars, from, to)
}

/// Takes the occurrences of the character off the end.
pub fn trim_end_char(s: &str, c: char) -> (text: String)
    ensures
        text@ == trim_end_char_of(s@, c),
{
    let chars = chars_of(s);
    let mut to: usize = chars.len();
    assert(s@ =~= s@.subrange(0, to as int));
    while to > 0 && chars[to - 1] == c
        invariant
            to <= chars@.len(),
            chars@ == s@,
            trim_end_char_of(s@, c) == trim_end_char_of(s@.subrange(0, to as int), c),
        decreases to,
    {
        assert(s@.subrange(0, to as int).drop_last() =~= s@.subrange(0, to - 1));
        to -= 1;
    }
    text_of(&chars, 0, to)
}

/// Whether the pattern stands in the text at that place.
pub open spec fn occurs_at(s: Seq<char>, pattern: Seq<char>, at: int) -> bool {
    0 <= at <= s.len() - pattern.len() && s.subrange(at, at + pattern.len()) == pattern
}

/// Whether the pattern is part of the text.
pub open spec fn contains_text(s: Seq<char>, pattern: Seq<char>) -> bool {
    exists|at: int| occurs_at(s, pattern, at)
}

fn stands_at(chars: &Vec<char>, pattern: &Vec<char>, at: usize) -> (stands: bool)
    requires
        at + pattern@.len() <= chars@.len(),
    ensures
        stands == occurs_at(chars@, pattern@, at as int),
{
    let mut i: usize = 0;
    let len: usize = chars.len();
    while i < pattern.len()
        invariant
            i <= pattern@.len(),
            at + pattern@.len() <= chars@.len() == len,
            forall|j: int| 0 <= j < i ==> chars@[at + j] == pattern@[j],
        decreases pattern@.len() - i,
    {
        if chars[at + i] != pattern[i] {
            proof {
                let part = chars@.subrange(at as int, at + pattern@.len());
                assert(part[i as int] != pattern@[i as int]);
            }
            return false;
        }
        i += 1;
    }
    assert(chars@.subrange(at as int, at + pattern@.len()) =~= pattern@);
    true
}

/// The first place from `from` on at which the pattern stands.
fn find_from(chars: &Vec<char>, pattern: &Vec<char>, from: usize) -> (at: Option<usize>)
    requires
        from <= chars@.len(),
    ensures
        match at {
            Some(at) => from <= at && occurs_at(chars@, pattern@, at as int) && forall|j: int|
                from <= j < at ==> !occurs_at(chars@, pattern@, j),
            None => forall|j: int| from <= j ==> !occurs_at(chars@, pattern@, j),
        },
{
    if pattern.len() > chars.len() {
        return None;
    }
    let last: usize = chars.len() - pattern.len();
    let mut at: usize = from;
    while at <= last
        invariant
            from <= at,
            last == chars@.len() - pattern@.len(),
            forall|j: int| from <= j < at ==> !occurs_at(chars@, pattern@, j),
        decreases last + 1 - at,
    {
        if stands_at(chars, pattern, at) {
            return Some(at);
        }
        if at == last {
            return None;
        }
        at += 1;
    }
    None
}

/// Whether the suffix is all of the text, or what follows a separator at its end.
pub open spec fn is_last_part(s: Seq<char>, suffix: Seq<char>, separators: Set<char>) -> bool {
    let at = s.len() - suffix.len();
    occurs_at(s, suffix, at) && (at > 0 ==> separators.contains(s[at - 1]))
}

/// What separates the parts of a path.
pub open spec fn path_separators() -> Set<char> {
    set!['/', '\\']
}

/// Whether the name is that of the file at the path.
pub fn is_file_name(path: &str, name: &str) -> (is_name: bool)
    ensures
        is_name == is_last_part(path@, name@, path_separators()),
{
    let chars = chars_of(path);
    let wanted = chars_of(name);
    if wanted.len() > chars.len() {
        return false;
    }
    let at: usize = chars.len() - wanted.len();
    stands_at(&chars, &wanted, at) && (at == 0 || chars[at - 1] == '/' || chars[at - 1] == '\\')
}

/// Whether the pattern is part of the text.
pub fn contains(s: &str, pattern: &str) -> (found: bool)
    ensures
        found == contains_text(s@, pattern@),
{
    let chars = chars_of(s);
    let wanted = chars_of(pattern);
    match find_from(&chars, &wanted, 0) {
        Some(_) => true,
        None => false,
    }
}

/// The text without the occurrences of the pattern, each sought behind the one before it.
pub open spec fn without_text(s: Seq<char>, pattern: Seq<char>) -> Seq<char>
    decreases s.len(),
{
    if pattern.len() == 0 || s.len() < pattern.len() {
        s
    } else if s.take(pattern.len() as int) == pattern {
        without_text(s.skip(pattern.len() as int), pattern)
    } else {
        seq![s[0]] + without_text(s.drop_first(), pattern)
    }
}

/// Takes the occurrences of the pattern out of the text.
pub fn remove_text(s: &str, pattern: &str) -> (text: String)
    ensures
        text@ == without_text(s@, pattern@),
{
    let chars = chars_of(s);
    let wanted = chars_of(pattern);
    let mut text = String::new();
    let mut i: usize = 0;
    assert(s@.skip(0) =~= s@);
    assert(text@ + without_text(s@, pattern@) =~= without_text(s@, pattern@));
    if wanted.len() > 0 {
        while i < chars.len() && wanted.len() <= chars.len() - i
            invariant
                i <= chars@.len(),
                chars@ == s@,
                wanted@ == pattern@,
                wanted@.len() > 0,
                text@ + without_text(s@.skip(i as int), pattern@) == without_text(s@, pattern@),
            decreases chars@.len() - i,
        {
            let ghost rest = s@.skip(i as int);
            assert(rest.take(pattern@.len() as int) =~= s@.subrange(i as int, i + pattern@.len()));
            if stands_at(&chars, &wanted, i) {
                assert(rest.skip(pattern@.len() as int) =~= s@.skip(i + pattern@.len()));
                i += wanted.len();
            } else {
                let ghost before = text@;
                text.push(chars[i]);
                proof {
                    assert(rest.drop_first() =~= s@.skip(i + 1));
                    assert(text@ + without_text(s@.skip(i + 1), pattern@) =~= before
                        + without_text(rest, pattern@));
                }
                i += 1;
            }
        }
    }
    let rest = text_of(&chars, i, chars.len());
    text.append(rest.as_str());
    assert(rest@ =~= s@.skip(i as int));
    text
}

/// Whether the text begins with the prefix.
pub open spec fn begins_with(s: Seq<char>, prefix: Seq<char>) -> bool {
    prefix.len() <= s.len() && s.take(prefix.len() as int) == prefix
}

/// What follows the prefix; `None` where the text does not begin with it.
pub fn strip_prefix(s: &str, prefix: &str) -> (rest: Option<String>)
    ensures
        match rest {
            Some(rest) => begins_with(s@, prefix@) && rest@ == s@.skip(prefix@.len() as int),
            None => !begins_with(s@, prefix@),
        },
{
    let chars = chars_of(s);
    let wanted = chars_of(prefix);
    if wanted.len() > chars.len() || !stands_at(&chars, &wanted, 0) {
        assert(prefix@.len() <= s@.len() ==> s@.take(prefix@.len() as int) =~= s@.subrange(
            0,
            prefix@.len() as int,
        ));
        return None;
    }
    assert(s@.take(prefix@.len() as int) =~= s@.subrange(0, prefix@.len() as int));
    let rest = text_of(&chars, wanted.len(), chars.len());
    assert(rest@ =~= s@.skip(prefix@.len() as int));
    Some(rest)
}

/// The text before and behind the first occurrence of the character.
pub fn split_once(s: &str, c: char) -> (parts: Option<(String, String)>)
    ensures
        match parts {
            Some((before, behind)) => 0 <= index_of(s@, c) < s@.len() && before@ == s@.take(
                index_of(s@, c),
            ) && behind@ == s@.skip(index_of(s@, c) + 1),
            None => index_of(s@, c) == s@.len(),
        },
{
    let chars = chars_of(s);
    let mut i: usize = 0;
    while i < chars.len()
        invariant
            i <= chars@.len(),
            chars@ == s@,
            forall|j: int| 0 <= j < i ==> s@[j] != c,
        decreases chars@.len() - i,
    {
        if chars[i] == c {
            proof {
                lemma_index_of(s@, c, i as int);
            }
            let before = text_of(&chars, 0, i);
            let behind = text_of(&chars, i + 1, chars.len());
            assert(before@ =~= s@.take(i as int));
            assert(behind@ =~= s@.skip(i + 1));
            return Some((before, behind));
        }
        i += 1;
    }
    proof {
        lemma_index_of(s@, c, i as int);
    }
    None
}

/// Whether the text ends with a line feed.
pub fn ends_with_newline(s: &str) -> (ends: bool)
    ensures
        ends == (s@.len() > 0 && s@.last() == '\n'),
{
    let chars = chars_of(s);
    chars.len() > 0 && chars[chars.len() - 1] == '\n'
}

/// The digit of a number below ten.
pub open spec fn digit_char(d: nat) -> char {
    (48 + d) as char
}

/// The decimal digits of a number, without leading zeros.
pub open spec fn decimal(n: nat) -> Seq<char>
    decreases n,
{
    if n < 10 {
        seq![digit_char(n)]
    } else {
        decimal(n / 10).push(digit_char(n % 10))
    }
}

/// Writes a number in decimal digits.
pub fn decimal_text(n: u64) -> (text: String)
    ensures
        text@ == decimal(n as nat),
    decreases n,
{
    let digit: u8 = 48 + (n % 10) as u8;
    if n < 10 {
        let mut text = String::new();
        text.push(digit as char);
        assert(text@ =~= seq![digit_char(n as nat)]);
        text
    } else {
        let mut text = decimal_text(n / 10);
        text.push(digit as char);
        text
    }
}

/// Whether the character is a decimal digit.
pub open spec fn is_digit(c: char) -> bool {
    '0' <= c <= '9'
}

pub open spec fn all_digits(s: Seq<char>) -> bool {
    forall|i: int| 0 <= i < s.len() ==> is_digit(#[trigger] s[i])
}

/// The number that decimal digits spell.
pub open spec fn digits_value(s: Seq<char>) -> nat
    decreases s.len(),
{
    if s.len() == 0 {
        0
    } else {
        digits_value(s.drop_last()) * 10 + (s.last() as nat - 48) as nat
    }
}

/// The digits of a number's text: a plus sign may precede them.
pub open spec fn unsigned_digits(s: Seq<char>) -> Seq<char> {
    if s.len() > 0 && s[0] == '+' {
        s.drop_first()
    } else {
        s
    }
}

/// The number that a text spells in decimal digits, where it does and the number fits in `usize`.
pub open spec fn parsed_usize(s: Seq<char>) -> Option<usize> {
    let digits = unsigned_digits(s);
    if digits.len() > 0 && all_digits(digits) && digits_value(digits) <= usize::MAX {
        Some(digits_value(digits) as usize)
    } else {
        None
    }
}

proof fn lemma_digits_value_grows(s: Seq<char>, i: int)
    requires
        all_digits(s),
        0 <= i <= s.len(),
    ensures
        digits_value(s.take(i)) <= digits_value(s),
    decreases s.len(),
{
    if i == s.len() {
        assert(s.take(i) =~= s);
    } else {
        assert(s.drop_last().take(i) =~= s.take(i));
        lemma_digits_value_grows(s.drop_last(), i);
    }
}

/// Reads a number in decimal digits.
pub fn parse_usize(s: &str) -> (n: Option<usize>)
    ensures
        n == parsed_usize(s@),
{
    let chars = chars_of(s);
    let from: usize = if chars.len() > 0 && chars[0] == '+' {
        1
    } else {
        0
    };
    let ghost digits = unsigned_digits(s@);
    assert(digits =~= s@.skip(from as int));
    if from == chars.len() {
        return None;
    }
    let mut n: usize = 0;
    let mut i: usize = from;
    while i < chars.len()
        invariant
            from <= i <= chars@.len(),
            chars@ == s@,
            digits == s@.skip(from as int),
            digits == unsigned_digits(s@),
            forall|j: int| 0 <= j < i - from ==> is_digit(#[trigger] digits[j]),
            n == digits_value(digits.take(i - from)),
        decreases chars@.len() - i,
    {
        let c = chars[i];
        assert(c == digits[i - from]);
        if !('0' <= c && c <= '9') {
            return None;
        }
        let d: usize = (c as u32 - 48) as usize;
        let ghost upto = digits.take(i + 1 - from);
        proof {
            assert(upto.drop_last() =~= digits.take(i - from));
            assert(digits_value(upto) == n * 10 + d);
            if all_digits(digits) {
                lemma_digits_value_grows(digits, i + 1 - from);
            }
        }
        if n > (usize::MAX - d) / 10 {
            return None;
        }
        n = n * 10 + d;
        i += 1;
    }
    assert(digits.take(i - from) =~= digits);
    Some(n)
}

pub(crate) proof fn lemma_decimal(n: nat)
    ensures
        decimal(n).len() > 0,
        all_digits(decimal(n)),
        digits_value(decimal(n)) == n,
    decreases n,
{
    if n < 10 {
        assert(decimal(n).drop_last() =~= Seq::empty());
        assert(digits_value(Seq::<char>::empty()) == 0);
    } else {
        lemma_decimal(n / 10);
        assert(decimal(n).drop_last() =~= decimal(n / 10));
    }
}

/// A number written in decimal digits is read back.
pub proof fn decimals_are_read_back(n: usize)
    ensures
        decimal(n as nat).len() > 0,
        all_digits(decimal(n as nat)),
        parsed_usize(decimal(n as nat)) == Some(n),
{
    lemma_decimal(n as nat);
    assert(is_digit(decimal(n as nat)[0]));
}

/// Trimming takes the end of a line off digits.
pub(crate) proof fn lemma_trimmed_line(digits: Seq<char>)
    requires
        digits.len() > 0,
        all_digits(digits),
    ensures
        trimmed(digits + seq!['\r', '\n']) == digits,
{
    let line = digits + seq!['\r', '\n'];
    assert(is_digit(line[0])) by {
        assert(line[0] == digits[0]);
    }
    assert(trim_start_of(line) == line);
    assert(line.drop_last() =~= digits.push('\r'));
    assert(line.drop_last().drop_last() =~= digits);
    assert(is_digit(digits.last()));
    assert(trim_end_of(digits) == digits);
    assert(trim_end_of(digits.push('\r')) == digits);
}

/// What precedes the first occurrence of a pattern stays.
pub(crate) proof fn lemma_without_text_behind(before: Seq<char>, rest: Seq<char>, pattern: Seq<char>)
    requires
        0 < pattern.len() <= rest.len(),
        forall|i: int|
            0 <= i < before.len() ==> !#[trigger] occurs_at(before + rest, pattern, i),
    ensures
        without_text(before + rest, pattern) == before + without_text(rest, pattern),
    decreases before.len(),
{
    let s = before + rest;
    if before.len() == 0 {
        assert(s =~= rest);
        assert(before + without_text(rest, pattern) =~= without_text(rest, pattern));
    } else {
        let next = before.drop_first();
        assert(!occurs_at(s, pattern, 0));
        assert(s.take(pattern.len() as int) =~= s.subrange(0, pattern.len() as int));
        assert(s.drop_first() =~= next + rest);
        assert forall|i: int| 0 <= i < next.len() implies !#[trigger] occurs_at(
            next + rest,
            pattern,
            i,
        ) by {
            assert(!occurs_at(s, pattern, i + 1));
            if occurs_at(next + rest, pattern, i) {
                assert(s.subrange(i + 1, i + 1 + pattern.len()) =~= (next + rest).subrange(
                    i,
                    i + pattern.len(),
                ));
            }
        }
        lemma_without_text_behind(next, rest, pattern);
        assert(seq![s[0]] + (next + without_text(rest, pattern)) =~= before + without_text(
            rest,
            pattern,
        ));
    }
}

/// A line feed at the end makes no difference to the trimmed text.
pub(crate) proof fn lemma_trimmed_line_feed(s: Seq<char>)
    ensures
        trimmed(s.push('\n')) == trimmed(s),
    decreases s.len(),
{
    if s.len() == 0 {
        assert(s.push('\n').drop_first() =~= s);
    } else if is_white(s[0]) {
        assert(s.push('\n').drop_first() =~= s.drop_first().push('\n'));
        lemma_trimmed_line_feed(s.drop_first());
    } else {
        assert(s.push('\n')[0] == s[0]);
        assert(s.push('\n').drop_last() =~= s);
    }
}

/// A text that is not empty has a line.
pub(crate) proof fn lemma_lines_of_some(s: Seq<char>)
    ensures
        lines_of(s).len() == 0 <==> s.len() == 0,
{
}

proof fn lemma_joined_front(first: Seq<char>, rest: Seq<Seq<char>>, separator: Seq<char>)
    requires
        rest.len() > 0,
    ensures
        joined(seq![first] + rest, separator) == first + separator + joined(rest, separator),
    decreases rest.len(),
{
    let parts = seq![first] + rest;
    if rest.len() == 1 {
        assert(parts.drop_last() =~= seq![first]);
        assert(joined(seq![first], separator) == first);
        assert(joined(rest, separator) == rest[0]);
    } else {
        assert(parts.drop_last() =~= seq![first] + rest.drop_last());
        lemma_joined_front(first, rest.drop_last(), separator);
        assert(joined(parts, separator) =~= first + separator + joined(rest, separator));
    }
}

proof fn lemma_index_of_range(s: Seq<char>, c: char)
    ensures
        0 <= index_of(s, c) <= s.len(),
        index_of(s, c) < s.len() ==> s[index_of(s, c)] == c,
        forall|i: int| 0 <= i < index_of(s, c) ==> s[i] != c,
    decreases s.len(),
{
    if s.len() > 0 && s[0] != c {
        let rest = s.drop_first();
        lemma_index_of_range(rest, c);
        assert forall|i: int| 0 <= i < index_of(s, c) implies s[i] != c by {
            if i > 0 {
                assert(s[i] == rest[i - 1]);
            }
        }
    }
}

/// Joining the lines of a text gives the text without a line feed at its end, where no carriage
/// return precedes a line feed.
pub proof fn joining_undoes_splitting(s: Seq<char>)
    requires
        forall|i: int|
            0 <= i < s.len() - 1 && #[trigger] s[i] == '\r' ==> s[i + 1] != '\n',
    ensures
        joined(lines_of(s), seq!['\n']) == (if s.len() > 0 && s.last() == '\n' {
            s.drop_last()
        } else {
            s
        }),
    decreases s.len(),
{
    let end = index_of(s, '\n');
    lemma_index_of_range(s, '\n');
    if s.len() == 0 {
        assert(joined(lines_of(s), seq!['\n']) =~= s);
    } else if end < s.len() {
        let line = s.take(end);
        let rest = s.skip(end + 1);
        assert forall|i: int|
            0 <= i < rest.len() - 1 && #[trigger] rest[i] == '\r' implies rest[i + 1] != '\n' by {
            assert(rest[i] == s[i + end + 1]);
            assert(rest[i + 1] == s[i + end + 2]);
        }
        joining_undoes_splitting(rest);
        assert(without_return(line) == line) by {
            if end > 0 {
                assert(line.last() == s[end - 1]);
            }
        }
        if rest.len() == 0 {
            assert(lines_of(s) =~= seq![line]);
            assert(s.last() == '\n');
            assert(line =~= s.drop_last());
        } else {
            lemma_joined_front(line, lines_of(rest), seq!['\n']);
            assert(s.last() == rest.last());
            assert(s =~= line + seq!['\n'] + rest);
            assert(s.drop_last() =~= line + seq!['\n'] + rest.drop_last());
        }
    } else {
        assert(s.last() != '\n');
    }
}

/// Whether every character is white space.
pub open spec fn all_white(s: Seq<char>) -> bool {
    forall|i: int| 0 <= i < s.len() ==> is_white(#[trigger] s[i])
}

/// Whether a text has something in it, and begins and ends with something that is no white space.
pub open spec fn is_trim(s: Seq<char>) -> bool {
    s.len() > 0 && !is_white(s.first()) && !is_white(s.last())
}

proof fn lemma_trim_start(before: Seq<char>, s: Seq<char>)
    requires
        all_white(before),
        s.len() > 0 ==> !is_white(s.first()),
    ensures
        trim_start_of(before + s) == s,
    decreases before.len(),
{
    let whole = before + s;
    if before.len() == 0 {
        assert(whole =~= s);
    } else {
        assert(whole[0] == before[0]);
        assert(whole.drop_first() =~= before.drop_first() + s);
        assert forall|i: int| 0 <= i < before.drop_first().len() implies is_white(
            #[trigger] before.drop_first()[i],
        ) by {
            assert(before.drop_first()[i] == before[i + 1]);
        }
        lemma_trim_start(before.drop_first(), s);
    }
}

proof fn lemma_trim_end(s: Seq<char>, behind: Seq<char>)
    requires
        all_white(behind),
        s.len() > 0 ==> !is_white(s.last()),
    ensures
        trim_end_of(s + behind) == s,
    decreases behind.len(),
{
    let whole = s + behind;
    if behind.len() == 0 {
        assert(whole =~= s);
    } else {
        assert(whole.last() == behind[behind.len() - 1]);
        assert(whole.drop_last() =~= s + behind.drop_last());
        assert forall|i: int| 0 <= i < behind.drop_last().len() implies is_white(
            #[trigger] behind.drop_last()[i],
        ) by {
            assert(behind.drop_last()[i] == behind[i]);
        }
        lemma_trim_end(s, behind.drop_last());
    }
}

/// Trimming takes the white space before and behind a text away, all of it and nothing else.
pub proof fn trimming_takes_white_space_away(before: Seq<char>, s: Seq<char>, behind: Seq<char>)
    requires
        all_white(before),
        all_white(behind),
        s.len() == 0 || is_trim(s),
    ensures
        trimmed(before + s + behind) == s,
{
    if s.len() > 0 {
        assert(before + s + behind =~= before + (s + behind));
        assert((s + behind).first() == s.first());
        lemma_trim_start(before, s + behind);
        lemma_trim_end(s, behind);
        lemma_trim_end(before + s, behind);
        lemma_trim_start(before, s);
        assert((before + s).last() == s.last());
    } else {
        let all = before + behind;
        assert(before + s + behind =~= all);
        assert(all_white(all));
        lemma_trim_start(all, s);
        lemma_trim_end(s, all);
        assert(all + s =~= all);
        assert(s + all =~= all);
        assert(s =~= Seq::empty());
        lemma_trim_end(s, s);
        assert(s + s =~= s);
        lemma_trim_start(s, s);
    }
}

/// Taking a character off the end takes its occurrences there away, all of them and nothing else.
pub proof fn a_character_is_taken_off_the_end(s: Seq<char>, c: char, behind: Seq<char>)
    requires
        forall|i: int| 0 <= i < behind.len() ==> #[trigger] behind[i] == c,
        s.len() > 0 ==> s.last() != c,
    ensures
        trim_end_char_of(s + behind, c) == s,
    decreases behind.len(),
{
    let whole = s + behind;
    if behind.len() == 0 {
        assert(whole =~= s);
    } else {
        assert(whole.last() == behind[behind.len() - 1]);
        assert(whole.drop_last() =~= s + behind.drop_last());
        a_character_is_taken_off_the_end(s, c, behind.drop_last());
    }
}

/// A text contains another where it is that text with something before it and something behind it.
pub proof fn containing_is_having_a_part(before: Seq<char>, part: Seq<char>, behind: Seq<char>)
    ensures
        contains_text(before + part + behind, part),
{
    let whole = before + part + behind;
    assert(whole.subrange(before.len() as int, (before.len() + part.len()) as int) =~= part);
    assert(occurs_at(whole, part, before.len() as int));
}

/// A text that contains another is that text with something before it and something behind it.
pub proof fn a_contained_text_is_a_part(s: Seq<char>, part: Seq<char>) -> (sides: (
    Seq<char>,
    Seq<char>,
))
    requires
        contains_text(s, part),
    ensures
        s == sides.0 + part + sides.1,
{
    let at = choose|at: int| occurs_at(s, part, at);
    let behind = s.skip(at + part.len());
    assert(s =~= s.take(at) + part + behind);
    (s.take(at), behind)
}

/// The line that a line feed ends is what stands before it, without a carriage return at its end; the
/// lines behind it are those of the rest.
pub proof fn a_line_feed_ends_a_line(line: Seq<char>, rest: Seq<char>)
    requires
        forall|i: int| 0 <= i < line.len() ==> #[trigger] line[i] != '\n',
    ensures
        lines_of(line + seq!['\n'] + rest) == seq![line] + lines_of(rest) || (line.len() > 0
            && line.last() == '\r'),
        lines_of(line + seq!['\r', '\n'] + rest) == seq![line] + lines_of(rest),
        line.len() > 0 ==> lines_of(line) == seq![line],
{
    let plain = line + seq!['\n'] + rest;
    lemma_index_of(plain, '\n', line.len() as int);
    assert(plain.take(line.len() as int) =~= line);
    assert(plain.skip(line.len() as int + 1) =~= rest);
    let returned = line + seq!['\r', '\n'] + rest;
    assert forall|i: int| 0 <= i < line.len() as int + 1 implies #[trigger] returned[i] != '\n' by {
        if i < line.len() {
            assert(returned[i] == line[i]);
        }
    }
    lemma_index_of(returned, '\n', line.len() as int + 1);
    assert(returned.take(line.len() as int + 1) =~= line.push('\r'));
    assert(returned.skip(line.len() as int + 2) =~= rest);
    assert(line.push('\r').drop_last() =~= line);
    if line.len() > 0 {
        lemma_index_of(line, '\n', line.len() as int);
    }
}

/// White space within ASCII is the space and the characters from tab to carriage return.
pub proof fn white_space_within_ascii(c: char)
    requires
        (c as u32) < 128,
    ensures
        is_white(c) <==> c == ' ' || 9 <= c as u32 <= 13,
{
}

/// A name is that of the file at a path where it is the whole path, or follows a separator at its end.
pub proof fn a_file_name_ends_the_path(directory: Seq<char>, separator: char, name: Seq<char>)
    ensures
        is_last_part(name, name, path_separators()),
        separator == '/' || separator == '\\' ==> is_last_part(
            directory.push(separator) + name,
            name,
            path_separators(),
        ),
        separator != '/' && separator != '\\' ==> !is_last_part(
            directory.push(separator) + name,
            name,
            path_separators(),
        ),
{
    let path = directory.push(separator) + name;
    assert(name.subrange(0, name.len() as int) =~= name);
    assert(path.subrange(directory.len() as int + 1, path.len() as int) =~= name);
    assert(path[directory.len() as int] == separator);
}

/// The decimal digits of a number: those of its tenth part, and then its last one.
pub proof fn a_number_is_written_digit_by_digit(n: nat)
    ensures
        decimal(n).len() > 0,
        decimal(n).last() as nat == '0' as nat + n % 10,
        n >= 10 ==> decimal(n).drop_last() == decimal(n / 10),
        n < 10 ==> decimal(n).len() == 1,
{
    lemma_decimal(n);
    if n >= 10 {
        assert(decimal(n).drop_last() =~= decimal(n / 10));
    }
}

/// Joining puts the separator between two parts, and nowhere else.
pub proof fn a_separator_stands_between_parts(
    parts: Seq<Seq<char>>,
    part: Seq<char>,
    separator: Seq<char>,
)
    ensures
        joined(Seq::empty(), separator) == Seq::<char>::empty(),
        joined(seq![part], separator) == part,
        parts.len() > 0 ==> joined(parts.push(part), separator) == joined(parts, separator)
            + separator + part,
{
    if parts.len() > 0 {
        assert(parts.push(part).drop_last() =~= parts);
    }
}

/// A plus sign before the digits of a number, and zeros at their beginning, make no difference. A text
/// without digits spells no number, and neither does one with anything else behind the sign.
pub proof fn a_number_may_have_a_sign_and_zeros(digits: Seq<char>)
    requires
        digits.len() > 0,
        all_digits(digits),
    ensures
        parsed_usize(seq!['+'] + digits) == parsed_usize(digits),
        parsed_usize(seq!['0'] + digits) == parsed_usize(digits),
        parsed_usize(Seq::empty()) is None,
        parsed_usize(seq!['+']) is None,
        parsed_usize(digits.insert(1, '-')) is None,
        parsed_usize(digits.push(' ')) is None,
        parsed_usize(seq!['-'] + digits) is None,
        parsed_usize(digits) matches Some(n) ==> n == digits_value(digits),
        parsed_usize(digits) is None ==> digits_value(digits) > usize::MAX,
{
    assert(is_digit(digits[0]));
    assert((seq!['+'] + digits).drop_first() =~= digits);
    assert(seq!['+'].drop_first() =~= Seq::empty());
    let zeroed = seq!['0'] + digits;
    assert(zeroed[0] == '0');
    assert forall|i: int| 0 <= i < zeroed.len() implies is_digit(#[trigger] zeroed[i]) by {
        if i > 0 {
            assert(zeroed[i] == digits[i - 1]);
        }
    }
    lemma_zero_first(digits);
    let broken = digits.insert(1, '-');
    assert(broken[0] == digits[0]);
    assert(broken[1] == '-' && !is_digit('-'));
    assert(!all_digits(broken));
    let spaced = digits.push(' ');
    assert(spaced[0] == digits[0]);
    assert(spaced[digits.len() as int] == ' ' && !is_digit(' '));
    assert(!all_digits(spaced));
    let negative = seq!['-'] + digits;
    assert(negative[0] == '-');
    assert(!all_digits(negative));
}

proof fn lemma_zero_first(digits: Seq<char>)
    ensures
        digits_value(seq!['0'] + digits) == digits_value(digits),
    decreases digits.len(),
{
    let zeroed = seq!['0'] + digits;
    if digits.len() == 0 {
        assert(zeroed.drop_last() =~= Seq::empty());
        assert(digits_value(Seq::<char>::empty()) == 0);
    } else {
        assert(zeroed.drop_last() =~= seq!['0'] + digits.drop_last());
        lemma_zero_first(digits.drop_last());
    }
}

/// The first occurrence of a pattern is taken out, and then those behind it; a text without the pattern
/// stays as it is.
pub proof fn each_occurrence_is_taken_out(
    before: Seq<char>,
    pattern: Seq<char>,
    behind: Seq<char>,
)
    requires
        pattern.len() > 0,
    ensures
        (forall|i: int|
            0 <= i < before.len() ==> !#[trigger] occurs_at(before + (pattern + behind), pattern, i))
            ==> without_text(before + (pattern + behind), pattern) == before + without_text(
            behind,
            pattern,
        ),
        !contains_text(before, pattern) ==> without_text(before, pattern) == before,
{
    let rest = pattern + behind;
    assert(rest.take(pattern.len() as int) =~= pattern);
    assert(rest.skip(pattern.len() as int) =~= behind);
    if forall|i: int| 0 <= i < before.len() ==> !#[trigger] occurs_at(before + rest, pattern, i) {
        lemma_without_text_behind(before, rest, pattern);
    }
    if !contains_text(before, pattern) {
        lemma_without_nothing(before, pattern);
    }
}

proof fn lemma_without_nothing(s: Seq<char>, pattern: Seq<char>)
    requires
        pattern.len() > 0,
        !contains_text(s, pattern),
    ensures
        without_text(s, pattern) == s,
    decreases s.len(),
{
    if s.len() >= pattern.len() {
        let rest = s.drop_first();
        assert(!occurs_at(s, pattern, 0));
        assert(s.take(pattern.len() as int) =~= s.subrange(0, pattern.len() as int));
        assert(!contains_text(rest, pattern)) by {
            if contains_text(rest, pattern) {
                let at = choose|at: int| occurs_at(rest, pattern, at);
                assert(s.subrange(at + 1, at + 1 + pattern.len()) =~= rest.subrange(
                    at,
                    at + pattern.len(),
                ));
                assert(occurs_at(s, pattern, at + 1));
            }
        }
        lemma_without_nothing(rest, pattern);
        assert(seq![s[0]] + rest =~= s);
    }
}

} // verus!
