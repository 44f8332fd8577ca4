//! Text as sequences of characters: searching, trimming, splitting and numbers.
use vstd::prelude::*;
use vstd::slice::slice_subrange;
use vstd::string::*;

verus! {

/// `String::push` appends the character to the text.
pub assume_specification[ String::push ](s: &mut String, c: char)
    ensures
        final(s)@ == old(s)@.push(c),
;

/// `String::pop` removes the last character and returns it, if there is one.
pub assume_specification[ String::pop ](s: &mut String) -> (r: Option<char>)
    ensures
        match r {
            Some(c) => old(s)@.len() > 0 && c == old(s)@.last() && final(s)@ == old(s)@.drop_last(),
            None => old(s)@.len() == 0 && final(s)@ == old(s)@,
        },
;

/// The text without its last character, if it has one.
pub open spec fn without_last(s: Seq<char>) -> Seq<char> {
    if s.len() > 0 {
        s.drop_last()
    } else {
        s
    }
}

/// The characters of `s`, in order.
pub fn chars_of(s: &str) -> (v: Vec<char>)
    ensures
        v@ == s@,
{
    let mut v: Vec<char> = Vec::new();
    for c in it: s.chars()
        invariant
            it.seq() == s@,
            v@ == s@.take(it.index()),
    {
        v.push(c);
        assert(v@ =~= s@.take(it.index() + 1));
    }
    assert(s@.take(s@.len() as int) =~= s@);
    v
}

/// The text made of the given characters.
pub fn string_of(chars: &[char]) -> (s: String)
    ensures
        s@ == chars@,
{
    let mut s = String::new();
    let mut i: usize = 0;
    while i < chars.len()
        invariant
            i <= chars@.len(),
            s@ == chars@.take(i as int),
        decreases chars@.len() - i,
    {
        s.push(chars[i]);
        i = i + 1;
        assert(s@ =~= chars@.take(i as int));
    }
    assert(chars@.take(chars@.len() as int) =~= chars@);
    s
}

/// Whether two texts hold the same characters.
pub fn same_text(a: &str, b: &str) -> (r: bool)
    ensures
        r == (a@ == b@),
{
    let left = chars_of(a);
    let right = chars_of(b);
    same_chars(&left, &right)
}

/// Whether two character sequences are equal.
pub fn same_chars(a: &[char], b: &[char]) -> (r: bool)
    ensures
        r == (a@ == b@),
{
    if a.len() != b.len() {
        return false;
    }
    let mut i: usize = 0;
    while i < a.len()
        invariant
            i <= a@.len(),
            a@.len() == b@.len(),
            forall|k: int| 0 <= k < i ==> a@[k] == b@[k],
        decreases a@.len() - i,
    {
        if a[i] != b[i] {
            return false;
        }
        i = i + 1;
    }
    assert(a@ =~= b@);
    true
}

/// The position of the first `c` in `s`, or the length of `s` where there is none.
pub open spec fn first_index(s: Seq<char>, c: char) -> int
    decreases s.len(),
{
    if s.len() == 0 || s[0] == c {
        0
    } else {
        1 + first_index(s.drop_first(), c)
    }
}

pub proof fn lemma_first_index(s: Seq<char>, c: char)
    ensures
        0 <= first_index(s, c) <= s.len(),
        forall|k: int| 0 <= k < first_index(s, c) ==> s[k] != c,
        first_index(s, c) < s.len() ==> s[first_index(s, c)] == c,
        s.contains(c) <==> first_index(s, c) < s.len(),
    decreases s.len(),
{
    if s.len() == 0 || s[0] == c {
    } else {
        let t = s.drop_first();
        lemma_first_index(t, c);
        assert forall|k: int| 0 <= k < first_index(s, c) implies s[k] != c by {
            if k > 0 {
                assert(t[k - 1] == s[k]);
            }
        }
        if s.contains(c) {
            let k = choose|k: int| 0 <= k < s.len() && s[k] == c;
            assert(t[k - 1] == c);
        }
    }
}

/// The first index is determined by what stands before it and at it.
pub proof fn lemma_first_index_unique(s: Seq<char>, c: char, i: int)
    requires
        0 <= i <= s.len(),
        forall|k: int| 0 <= k < i ==> s[k] != c,
        i < s.len() ==> s[i] == c,
    ensures
        first_index(s, c) == i,
{
    lemma_first_index(s, c);
}

/// The position of the first `c` among `s`, or its length where there is none.
pub fn find_char(s: &[char], c: char) -> (i: usize)
    ensures
        i == first_index(s@, c),
        i <= s@.len(),
{
    let mut i: usize = 0;
    while i < s.len() && s[i] != c
        invariant
            i <= s@.len(),
            forall|k: int| 0 <= k < i ==> s@[k] != c,
        decreases s@.len() - i,
    {
        i = i + 1;
    }
    proof {
        lemma_first_index_unique(s@, c, i as int);
    }
    i
}

/// Whether `c` occurs in `s`.
pub fn has_char(s: &str, c: char) -> (r: bool)
    ensures
        r == s@.contains(c),
{
    let chars = chars_of(s);
    proof {
        lemma_first_index(s@, c);
    }
    find_char(&chars, c) < chars.len()
}

/// What stands before and after the first `c`, where there is one.
pub open spec fn split_once_spec(s: Seq<char>, c: char) -> Option<(Seq<char>, Seq<char>)> {
    let i = first_index(s, c);
    if i < s.len() {
        Some((s.take(i), s.skip(i + 1)))
    } else {
        None
    }
}

/// The text before and after the first `c`, where there is one.
pub fn split_once(s: &str, c: char) -> (r: Option<(&str, &str)>)
    ensures
        match r {
            Some((a, b)) => split_once_spec(s@, c) == Some((a@, b@)),
            None => split_once_spec(s@, c) is None,
        },
{
    let chars = chars_of(s);
    let i: usize = find_char(&chars, c);
    if i < chars.len() {
        let a = s.substring_char(0, i);
        let b = s.substring_char(i + 1, chars.len());
        assert(a@ =~= s@.take(i as int));
        assert(b@ =~= s@.skip(i + 1));
        Some((a, b))
    } else {
        None
    }
}

/// The pieces of `s` between the separators: one more piece than separators.
pub open spec fn split_spec(s: Seq<char>, sep: char) -> Seq<Seq<char>>
    decreases s.len(),
{
    let i = first_index(s, sep);
    if 0 <= i < s.len() {
        seq![s.take(i)] + split_spec(s.skip(i + 1), sep)
    } else {
        seq![s]
    }
}

/// The views of a list of texts.
pub open spec fn views(list: Seq<&str>) -> Seq<Seq<char>> {
    Seq::new(list.len(), |i: int| list[i]@)
}

/// The views of a list of owned texts.
pub open spec fn string_views(list: Seq<String>) -> Seq<Seq<char>> {
    Seq::new(list.len(), |i: int| list[i]@)
}

/// The pieces of `s` between the separators.
pub fn split(s: &str, sep: char) -> (r: Vec<&str>)
    ensures
        views(r@) == split_spec(s@, sep),
        r@.len() >= 1,
{
    let chars = chars_of(s);
    let mut pieces: Vec<&str> = Vec::new();
    let mut start: usize = 0;
    let mut i: usize = 0;
    assert(views(pieces@) + split_spec(s@.skip(0), sep) =~= split_spec(s@, sep)) by {
        assert(s@.skip(0) =~= s@);
    }
    while i < chars.len()
        invariant
            chars@ == s@,
            start <= i <= s@.len(),
            forall|k: int| start <= k < i ==> s@[k] != sep,
            views(pieces@) + split_spec(s@.skip(start as int), sep) == split_spec(s@, sep),
        decreases s@.len() - i,
    {
        if chars[i] == sep {
            let piece = s.substring_char(start, i);
            let ghost rest = s@.skip(start as int);
            let ghost before = pieces@;
            pieces.push(piece);
            proof {
                assert(rest[i - start] == s@[i as int]);
                lemma_first_index_unique(rest, sep, i - start);
                assert(rest.take(i - start) =~= piece@);
                assert(rest.skip(i - start + 1) =~= s@.skip(i + 1));
                assert(views(pieces@) =~= views(before).push(piece@));
                assert(views(pieces@) + split_spec(s@.skip(i + 1), sep) =~= views(before) + (
                seq![piece@] + split_spec(s@.skip(i + 1), sep)));
            }
            start = i + 1;
        }
        i = i + 1;
    }
    let piece = s.substring_char(start, i);
    let ghost before = pieces@;
    pieces.push(piece);
    proof {
        let rest = s@.skip(start as int);
        assert forall|k: int| 0 <= k < rest.len() implies rest[k] != sep by {
            assert(rest[k] == s@[start + k]);
        }
        lemma_first_index_unique(rest, sep, rest.len() as int);
        assert(rest =~= piece@);
        assert(views(pieces@) =~= views(before) + seq![piece@]);
    }
    pieces
}

/// Whether `c` has the Unicode `White_Space` property.
pub open spec fn is_whitespace_spec(c: char) -> bool {
    ||| '\u{9}' <= c <= '\u{d}'
    ||| c == ' '
    ||| c == '\u{85}'
    ||| c == '\u{a0}'
    ||| c == '\u{1680}'
    ||| '\u{2000}' <= c <= '\u{200a}'
    ||| c == '\u{2028}'
    ||| c == '\u{2029}'
    ||| c == '\u{202f}'
    ||| c == '\u{205f}'
    ||| c == '\u{3000}'
}

/// Whether `c` is white space.
pub fn is_whitespace(c: char) -> (r: bool)
    ensures
        r == is_whitespace_spec(c),
{
    ('\u{9}' <= c && c <= '\u{d}') || c == ' ' || c == '\u{85}' || c == '\u{a0}' || c == '\u{1680}'
        || ('\u{2000}' <= c && c <= '\u{200a}') || c == '\u{2028}' || c == '\u{2029}' || c
        == '\u{202f}' || c == '\u{205f}' || c == '\u{3000}'
}

/// Whether `c` is a control character: the Unicode general category `Cc`.
pub open spec fn is_control_spec(c: char) -> bool {
    c <= '\u{1f}' || '\u{7f}' <= c <= '\u{9f}'
}

/// Whether `c` is a control character.
pub fn is_control(c: char) -> (r: bool)
    ensures
        r == is_control_spec(c),
{
    c <= '\u{1f}' || ('\u{7f}' <= c && c <= '\u{9f}')
}

/// `s` without the white space at its start.
pub open spec fn trim_start_spec(s: Seq<char>) -> Seq<char>
    decreases s.len(),
{
    if s.len() > 0 && is_whitespace_spec(s[0]) {
        trim_start_spec(s.drop_first())
    } else {
        s
    }
}

/// `s` without the white space at its end.
pub open spec fn trim_end_spec(s: Seq<char>) -> Seq<char>
    decreases s.len(),
{
    if s.len() > 0 && is_whitespace_spec(s.last()) {
        trim_end_spec(s.drop_last())
    } else {
        s
    }
}

/// `s` without the white space at either end.
pub open spec fn trim_spec(s: Seq<char>) -> Seq<char> {
    trim_end_spec(trim_start_spec(s))
}

/// The text without the white space at either end.
pub fn trim(s: &str) -> (r: &str)
    ensures
        r@ == trim_spec(s@),
{
    let chars = chars_of(s);
    let mut start: usize = 0;
    assert(s@.skip(0) =~= s@);
    while start < chars.len() && is_whitespace(chars[start])
        invariant
            chars@ == s@,
            start <= s@.len(),
            trim_start_spec(s@.skip(start as int)) == trim_start_spec(s@),
        decreases s@.len() - start,
    {
        assert(s@.skip(start as int).drop_first() =~= s@.skip(start + 1));
        start = start + 1;
    }
    let ghost body = s@.skip(start as int);
    assert(body == trim_start_spec(s@));
    let mut end: usize = chars.len();
    assert(s@.subrange(start as int, end as int) =~= body);
    while start < end && is_whitespace(chars[end - 1])
        invariant
            chars@ == s@,
            start <= end <= s@.len(),
            trim_end_spec(s@.subrange(start as int, end as int)) == trim_end_spec(body),
        decreases end,
    {
        assert(s@.subrange(start as int, end as int).drop_last() =~= s@.subrange(
            start as int,
            end - 1,
        ));
        end = end - 1;
    }
    s.substring_char(start, end)
}

/// `s` without the characters `c` at its end.
pub open spec fn trim_end_char_spec(s: Seq<char>, c: char) -> Seq<char>
    decreases s.len(),
{
    if s.len() > 0 && s.last() == c {
        trim_end_char_spec(s.drop_last(), c)
    } else {
        s
    }
}

/// The text without the characters `c` at its end.
pub fn trim_end_char(s: &str, c: char) -> (r: &str)
    ensures
        r@ == trim_end_char_spec(s@, c),
{
    let chars = chars_of(s);
    let mut end: usize = chars.len();
    assert(s@.take(end as int) =~= s@);
    while end > 0 && chars[end - 1] == c
        invariant
            chars@ == s@,
            end <= s@.len(),
            trim_end_char_spec(s@.take(end as int), c) == trim_end_char_spec(s@, c),
        decreases end,
    {
        assert(s@.take(end as int).drop_last() =~= s@.take(end - 1));
        end = end - 1;
    }
    let r = s.substring_char(0, end);
    assert(r@ =~= s@.take(end as int));
    r
}

/// Whether `c` is one of the ten ASCII digits.
pub open spec fn is_digit_spec(c: char) -> bool {
    '0' <= c <= '9'
}

/// The value of a decimal digit.
pub open spec fn digit_value(c: char) -> int {
    c as u32 - 48
}

/// The digit with the given value, from zero to nine.
pub open spec fn digit_char(d: int) -> char {
    (48 + d) as u8 as char
}

/// Whether `s` holds only decimal digits.
pub open spec fn all_digits(s: Seq<char>) -> bool {
    forall|i: int| 0 <= i < s.len() ==> is_digit_spec(#[trigger] s[i])
}

/// The number that a run of decimal digits denotes.
pub open spec fn decimal_value(s: Seq<char>) -> int
    decreases s.len(),
{
    if s.len() == 0 {
        0
    } else {
        decimal_value(s.drop_last()) * 10 + digit_value(s.last())
    }
}

/// A number in decimal notation, without leading zeros.
pub open spec fn decimal_spec(n: int) -> Seq<char>
    decreases n,
{
    if n < 10 {
        seq![digit_char(n)]
    } else {
        decimal_spec(n / 10).push(digit_char(n % 10))
    }
}

/// A number in decimal notation, without leading zeros.
pub fn decimal(n: u64) -> (r: String)
    ensures
        r@ == decimal_spec(n as int),
    decreases n,
{
    if n < 10 {
        let mut s = String::new();
        s.push((48 + n as u8) as char);
        assert(s@ =~= decimal_spec(n as int));
        s
    } else {
        let mut s = decimal(n / 10);
        s.push((48 + (n % 10) as u8) as char);
        s
    }
}

/// Decimal notation gives the number back, and holds digits alone.
pub proof fn decimal_reads_back(n: int)
    requires
        0 <= n,
    ensures
        all_digits(decimal_spec(n)),
        decimal_spec(n).len() >= 1,
        decimal_value(decimal_spec(n)) == n,
        n > 0 ==> decimal_spec(n)[0] != '0',
    decreases n,
{
    reveal_with_fuel(decimal_value, 2);
    if n < 10 {
        assert(decimal_spec(n).drop_last() =~= Seq::empty());
    } else {
        decimal_reads_back(n / 10);
        assert(decimal_spec(n).drop_last() =~= decimal_spec(n / 10));
    }
}

/// The number that a run of digits denotes, if it is at most `max`.
pub open spec fn digits_spec(s: Seq<char>, max: int) -> Option<int> {
    if s.len() > 0 && all_digits(s) && decimal_value(s) <= max {
        Some(decimal_value(s))
    } else {
        None
    }
}

/// The unsigned number that `s` denotes, if it is at most `max`; a plus sign may precede it.
pub open spec fn unsigned_spec(s: Seq<char>, max: int) -> Option<int> {
    if s.len() > 0 && s[0] == '+' {
        digits_spec(s.drop_first(), max)
    } else {
        digits_spec(s, max)
    }
}

proof fn lemma_decimal_value_grows(s: Seq<char>, i: int)
    requires
        all_digits(s),
        0 <= i <= s.len(),
    ensures
        0 <= decimal_value(s.take(i)) <= decimal_value(s),
    decreases s.len(),
{
    if i == s.len() {
        assert(s.take(i) =~= s);
        if s.len() > 0 {
            lemma_decimal_value_grows(s.drop_last(), i - 1);
            assert(s.drop_last().take(i - 1) =~= s.drop_last());
            assert(is_digit_spec(s.last()));
        }
    } else {
        lemma_decimal_value_grows(s.drop_last(), i);
        assert(s.drop_last().take(i) =~= s.take(i));
        assert(is_digit_spec(s.last()));
    }
}

/// The number that the digits denote, if they are digits and it is at most `max`.
pub fn parse_digits(digits: &[char], max: u64) -> (r: Option<u64>)
    ensures
        match r {
            Some(n) => digits_spec(digits@, max as int) == Some(n as int),
            None => digits_spec(digits@, max as int) is None,
        },
{
    if digits.len() == 0 {
        return None;
    }
    let mut value: u64 = 0;
    let mut i: usize = 0;
    assert(digits@.take(0) =~= Seq::empty());
    while i < digits.len()
        invariant
            0 < digits@.len(),
            i <= digits@.len(),
            forall|k: int| 0 <= k < i ==> is_digit_spec(#[trigger] digits@[k]),
            value == decimal_value(digits@.take(i as int)),
            value <= max,
        decreases digits@.len() - i,
    {
        let c = digits[i];
        if !('0' <= c && c <= '9') {
            assert(!is_digit_spec(digits@[i as int]));
            return None;
        }
        let digit: u64 = c as u64 - 48;
        proof {
            assert(digits@.take(i + 1).drop_last() =~= digits@.take(i as int));
            assert(decimal_value(digits@.take(i + 1)) == value * 10 + digit);
            if all_digits(digits@) {
                lemma_decimal_value_grows(digits@, i + 1);
            }
        }
        if value > max / 10 || digit > max - value * 10 {
            return None;
        }
        value = value * 10 + digit;
        i = i + 1;
    }
    assert(digits@.take(digits@.len() as int) =~= digits@);
    Some(value)
}

/// The unsigned number that `s` denotes, if it is at most `max`; a plus sign may precede it.
pub fn parse_unsigned(s: &str, max: u64) -> (r: Option<u64>)
    ensures
        match r {
            Some(n) => unsigned_spec(s@, max as int) == Some(n as int),
            None => unsigned_spec(s@, max as int) is None,
        },
{
    let chars = chars_of(s);
    if chars.len() > 0 && chars[0] == '+' {
        let digits = slice_subrange(chars.as_slice(), 1, chars.len());
        assert(digits@ =~= s@.drop_first());
        parse_digits(digits, max)
    } else {
        parse_digits(&chars, max)
    }
}

/// `s` without a carriage return at its end.
pub open spec fn strip_return(s: Seq<char>) -> Seq<char> {
    if s.len() > 0 && s.last() == '\r' {
        s.drop_last()
    } else {
        s
    }
}

/// The lines of `s`. A line ends with a line feed, before which a carriage return is dropped; what
/// follows the last line feed is a line unless it is empty.
pub open spec fn lines_spec(s: Seq<char>) -> Seq<Seq<char>>
    decreases s.len(),
{
    let i = first_index(s, '\n');
    if s.len() == 0 {
        Seq::empty()
    } else if 0 <= i < s.len() {
        seq![strip_return(s.take(i))] + lines_spec(s.skip(i + 1))
    } else {
        seq![s]
    }
}

/// The lines of `s`.
pub fn lines(s: &str) -> (r: Vec<&str>)
    ensures
        views(r@) == lines_spec(s@),
{
    let chars = chars_of(s);
    let mut list: Vec<&str> = Vec::new();
    let mut start: usize = 0;
    let mut i: usize = 0;
    assert(views(list@) + lines_spec(s@.skip(0)) =~= lines_spec(s@)) by {
        assert(s@.skip(0) =~= s@);
    }
    while i < chars.len()
        invariant
            chars@ == s@,
            start <= i <= s@.len(),
            forall|k: int| start <= k < i ==> s@[k] != '\n',
            views(list@) + lines_spec(s@.skip(start as int)) == lines_spec(s@),
        decreases s@.len() - i,
    {
        if chars[i] == '\n' {
            let end: usize = if i > start && chars[i - 1] == '\r' {
                i - 1
            } else {
                i
            };
            let line = s.substring_char(start, end);
            let ghost rest = s@.skip(start as int);
            let ghost before = list@;
            list.push(line);
            proof {
                assert(rest[i - start] == s@[i as int]);
                lemma_first_index_unique(rest, '\n', i - start);
                let whole = rest.take(i - start);
                assert(whole.len() == i - start);
                if i > start {
                    assert(whole.last() == s@[i - 1]);
                }
                assert(line@ =~= strip_return(whole));
                assert(rest.skip(i - start + 1) =~= s@.skip(i + 1));
                assert(views(list@) =~= views(before).push(line@));
                assert(views(list@) + lines_spec(s@.skip(i + 1)) =~= views(before) + (seq![line@]
                    + lines_spec(s@.skip(i + 1))));
            }
            start = i + 1;
        }
        i = i + 1;
    }
    let ghost rest = s@.skip(start as int);
    if start < i {
        let line = s.substring_char(start, i);
        let ghost before = list@;
        list.push(line);
        proof {
            assert forall|k: int| 0 <= k < rest.len() implies rest[k] != '\n' by {
                assert(rest[k] == s@[start + k]);
            }
            lemma_first_index_unique(rest, '\n', rest.len() as int);
            assert(rest =~= line@);
            assert(views(list@) =~= views(before) + seq![line@]);
        }
    } else {
        assert(rest =~= Seq::empty());
        assert(views(list@) + Seq::empty() =~= views(list@));
    }
    list
}

/// The items of a comma-separated list, without the white space round them and without empty
/// ones.
pub open spec fn list_items(pieces: Seq<Seq<char>>) -> Seq<Seq<char>>
    decreases pieces.len(),
{
    if pieces.len() == 0 {
        Seq::empty()
    } else {
        let rest = list_items(pieces.drop_first());
        let item = trim_spec(pieces[0]);
        if item.len() == 0 {
            rest
        } else {
            seq![item] + rest
        }
    }
}

/// The items of a comma-separated list.
pub open spec fn split_list_spec(value: Seq<char>) -> Seq<Seq<char>> {
    list_items(split_spec(value, ','))
}

/// The items of a comma-separated list, without the white space round them and without empty
/// ones.
pub fn split_list(value: &str) -> (r: Vec<&str>)
    ensures
        views(r@) == split_list_spec(value@),
{
    let pieces = split(value, ',');
    let ghost all = views(pieces@);
    let mut items: Vec<&str> = Vec::new();
    let mut i: usize = 0;
    assert(all.skip(0) =~= all);
    assert(views(items@) + list_items(all) =~= list_items(all));
    while i < pieces.len()
        invariant
            all == views(pieces@),
            i <= pieces@.len(),
            views(items@) + list_items(all.skip(i as int)) == list_items(all),
        decreases pieces@.len() - i,
    {
        let ghost rest = all.skip(i as int);
        assert(rest[0] == pieces@[i as int]@);
        assert(rest.drop_first() =~= all.skip(i + 1));
        let item = trim(pieces[i]);
        if !item.is_empty() {
            let ghost before = items@;
            items.push(item);
            assert(views(items@) =~= views(before).push(item@));
            assert(views(items@) + list_items(all.skip(i + 1)) =~= views(before) + list_items(
                rest,
            ));
        }
        i = i + 1;
    }
    assert(all.skip(i as int) =~= Seq::empty());
    assert(views(items@) + Seq::empty() =~= views(items@));
    items
}

/// Whether `part` stands in `s` at position `i`.
pub open spec fn stands_at(s: Seq<char>, part: Seq<char>, i: int) -> bool {
    0 <= i && i + part.len() <= s.len() && s.subrange(i, i + part.len()) == part
}

/// Whether `part` stands somewhere in `s`.
pub open spec fn occurs(s: Seq<char>, part: Seq<char>) -> bool {
    exists|i: int| stands_at(s, part, i)
}

/// Whether `part` stands in the characters at position `i`.
pub fn matches_at(s: &[char], part: &[char], i: usize) -> (r: bool)
    ensures
        r == stands_at(s@, part@, i as int),
{
    if i > s.len() || part.len() > s.len() - i {
        return false;
    }
    let length: usize = s.len();
    let mut k: usize = 0;
    while k < part.len()
        invariant
            length == s@.len(),
            i + part@.len() <= length,
            k <= part@.len(),
            forall|j: int| 0 <= j < k ==> s@[i + j] == part@[j],
        decreases part@.len() - k,
    {
        if s[i + k] != part[k] {
            assert(s@.subrange(i as int, i + part@.len())[k as int] != part@[k as int]);
            return false;
        }
        k = k + 1;
    }
    assert(s@.subrange(i as int, i + part@.len()) =~= part@);
    true
}

/// `s` with every `from` replaced by `to`, from the left and without overlaps.
pub open spec fn replace_spec(s: Seq<char>, from: Seq<char>, to: Seq<char>) -> Seq<char>
    decreases s.len(),
{
    if from.len() == 0 || s.len() == 0 {
        s
    } else if stands_at(s, from, 0) {
        to + replace_spec(s.skip(from.len() as int), from, to)
    } else {
        seq![s[0]] + replace_spec(s.drop_first(), from, to)
    }
}

/// The text with every `from` replaced by `to`, from the left and without overlaps.
pub fn replace(s: &str, from: &str, to: &str) -> (r: String)
    requires
        from@.len() > 0,
    ensures
        r@ == replace_spec(s@, from@, to@),
{
    let chars = chars_of(s);
    let part = chars_of(from);
    let mut r = String::new();
    let mut i: usize = 0;
    assert(s@.skip(0) =~= s@);
    assert(r@ + replace_spec(s@, from@, to@) =~= replace_spec(s@, from@, to@));
    while i < chars.len()
        invariant
            chars@ == s@,
            part@ == from@,
            from@.len() > 0,
            i <= s@.len(),
            r@ + replace_spec(s@.skip(i as int), from@, to@) == replace_spec(s@, from@, to@),
        decreases s@.len() - i,
    {
        let ghost rest = s@.skip(i as int);
        let ghost before = r@;
        let here: bool = matches_at(&chars, &part, i);
        assert(here == stands_at(rest, from@, 0)) by {
            if i + from@.len() <= s@.len() {
                assert(rest.subrange(0, from@.len() as int) =~= s@.subrange(
                    i as int,
                    i + from@.len(),
                ));
            }
        }
        if here {
            r.append(to);
            assert(rest.skip(from@.len() as int) =~= s@.skip(i + from@.len()));
            i = i + part.len();
            assert(r@ + replace_spec(s@.skip(i as int), from@, to@) =~= before + (to@
                + replace_spec(s@.skip(i as int), from@, to@)));
        } else {
            r.push(chars[i]);
            assert(rest.drop_first() =~= s@.skip(i + 1));
            i = i + 1;
            assert(r@ + replace_spec(s@.skip(i as int), from@, to@) =~= before + (seq![rest[0]]
                + replace_spec(s@.skip(i as int), from@, to@)));
        }
    }
    assert(s@.skip(i as int) =~= Seq::empty());
    assert(r@ + Seq::empty() =~= r@);
    r
}

/// Whether `a` from position `p` on differs from the beginning of `b`, as far as both reach.
pub open spec fn differs_from(a: Seq<char>, p: int, b: Seq<char>) -> bool {
    exists|k: int| 0 <= k < b.len() && p + k < a.len() && a[p + k] != #[trigger] b[k]
}

/// Whether no end of `from` or of `to` can be mistaken for the beginning of the other, and `from`
/// does not stand in `to`.
pub open spec fn no_overlap(from: Seq<char>, to: Seq<char>) -> bool {
    &&& forall|p: int| 0 <= p < to.len() ==> #[trigger] differs_from(to, p, from)
    &&& forall|p: int| 1 <= p < from.len() ==> #[trigger] differs_from(from, p, to)
}

/// A text in which everything was replaced holds no more of it, where the replacement cannot be
/// mistaken for a part of it.
pub proof fn replaced_text_is_gone(s: Seq<char>, from: Seq<char>, to: Seq<char>)
    requires
        from.len() > 0,
        to.len() > 0,
        no_overlap(from, to),
    ensures
        !occurs(replace_spec(s, from, to), from),
    decreases s.len(),
{
    let r = replace_spec(s, from, to);
    assert forall|i: int| !stands_at(r, from, i) by {
        if stands_at(r, from, i) {
            if s.len() == 0 {
            } else if stands_at(s, from, 0) {
                let rest = s.skip(from.len() as int);
                replaced_text_is_gone(rest, from, to);
                if i >= to.len() {
                    let tail = replace_spec(rest, from, to);
                    assert(tail.subrange(i - to.len(), i - to.len() + from.len()) =~= r.subrange(
                        i,
                        i + from.len(),
                    ));
                    assert(stands_at(tail, from, i - to.len()));
                } else {
                    assert(differs_from(to, i, from));
                    let k = choose|k: int|
                        0 <= k < from.len() && i + k < to.len() && to[i + k] != #[trigger] from[k];
                    assert(r[i + k] == to[i + k]);
                    assert(r.subrange(i, i + from.len())[k] == from[k]);
                }
            } else {
                let rest = s.drop_first();
                replaced_text_is_gone(rest, from, to);
                let tail = replace_spec(rest, from, to);
                if i >= 1 {
                    assert(tail.subrange(i - 1, i - 1 + from.len()) =~= r.subrange(
                        i,
                        i + from.len(),
                    ));
                    assert(stands_at(tail, from, i - 1));
                } else {
                    assert(r.take(from.len() as int) =~= r.subrange(0, from.len() as int));
                    assert(from.skip(0) =~= from);
                    lemma_prefix_kept(s, from, to, 0);
                    assert(s.subrange(0, from.len() as int) =~= s.take(from.len() as int));
                }
            }
        }
    }
}

/// Where what became of `s` starts with the end of `from` from position `j` on, `s` started with it.
proof fn lemma_prefix_kept(s: Seq<char>, from: Seq<char>, to: Seq<char>, j: int)
    requires
        0 <= j < from.len(),
        to.len() > 0,
        no_overlap(from, to),
        replace_spec(s, from, to).len() >= from.len() - j,
        replace_spec(s, from, to).take(from.len() - j) == from.skip(j),
        j == 0 ==> !stands_at(s, from, 0),
    ensures
        s.len() >= from.len() - j,
        s.take(from.len() - j) == from.skip(j),
    decreases s.len(),
{
    let r = replace_spec(s, from, to);
    let n = from.len() - j;
    assert(forall|k: int| 0 <= k < n ==> r.take(n)[k] == r[k]);
    assert(forall|k: int| 0 <= k < n ==> from.skip(j)[k] == from[j + k]);
    if s.len() == 0 {
    } else if stands_at(s, from, 0) {
        assert(differs_from(from, j, to));
        let k = choose|k: int|
            0 <= k < to.len() && j + k < from.len() && from[j + k] != #[trigger] to[k];
        assert(r[k] == to[k]);
        assert(r.take(n)[k] == from.skip(j)[k]);
    } else {
        let rest = s.drop_first();
        let tail = replace_spec(rest, from, to);
        assert(r == seq![s[0]] + tail);
        assert(r.take(n)[0] == from.skip(j)[0]);
        if j + 1 < from.len() {
            assert(tail.take(n - 1) =~= r.take(n).skip(1));
            assert(from.skip(j).skip(1) =~= from.skip(j + 1));
            lemma_prefix_kept(rest, from, to, j + 1);
            assert(s.take(n) =~= seq![s[0]] + rest.take(n - 1));
            assert(from.skip(j) =~= seq![from[j]] + from.skip(j + 1));
        } else {
            assert(s.take(n) =~= from.skip(j));
        }
    }
}

/// So many spaces.
pub open spec fn spaces(n: int) -> Seq<char> {
    Seq::new(
        if n > 0 {
            n as nat
        } else {
            0
        },
        |i: int| ' ',
    )
}

/// `s` with spaces behind it, up to the given width.
pub open spec fn pad_right_spec(s: Seq<char>, width: int) -> Seq<char> {
    s + spaces(width - s.len())
}

/// `s` with spaces before it, up to the given width.
pub open spec fn pad_left_spec(s: Seq<char>, width: int) -> Seq<char> {
    spaces(width - s.len()) + s
}

/// `s` with spaces on both sides, up to the given width; an odd one goes behind.
pub open spec fn center_spec(s: Seq<char>, width: int) -> Seq<char> {
    let free = width - s.len();
    spaces(free / 2) + s + spaces(free - free / 2)
}

fn push_spaces(out: &mut String, n: usize)
    ensures
        final(out)@ == old(out)@ + spaces(n as int),
{
    let mut i: usize = 0;
    assert(out@ =~= old(out)@ + spaces(0));
    while i < n
        invariant
            i <= n,
            out@ == old(out)@ + spaces(i as int),
        decreases n - i,
    {
        out.push(' ');
        i = i + 1;
        assert(out@ =~= old(out)@ + spaces(i as int));
    }
}

/// The text with spaces behind it, up to the given width.
pub fn pad_right(s: &str, width: usize) -> (r: String)
    ensures
        r@ == pad_right_spec(s@, width as int),
{
    let length: usize = s.unicode_len();
    let mut r = s.to_string();
    if length < width {
        push_spaces(&mut r, width - length);
    } else {
        assert(r@ =~= s@ + spaces(width - s@.len()));
    }
    r
}

/// The text with spaces before it, up to the given width.
pub fn pad_left(s: &str, width: usize) -> (r: String)
    ensures
        r@ == pad_left_spec(s@, width as int),
{
    let length: usize = s.unicode_len();
    let mut r = String::new();
    if length < width {
        push_spaces(&mut r, width - length);
    }
    r.append(s);
    assert(r@ =~= pad_left_spec(s@, width as int));
    r
}

/// The text with spaces on both sides, up to the given width.
pub fn center(s: &str, width: usize) -> (r: String)
    ensures
        r@ == center_spec(s@, width as int),
{
    let length: usize = s.unicode_len();
    let mut r = String::new();
    if length < width {
        let free: usize = width - length;
        push_spaces(&mut r, free / 2);
        r.append(s);
        push_spaces(&mut r, free - free / 2);
    } else {
        r.append(s);
    }
    assert(r@ =~= center_spec(s@, width as int));
    r
}

/// Whether `part` stands somewhere among the characters.
pub fn chars_occur(chars: &[char], part: &[char]) -> (r: bool)
    ensures
        r == occurs(chars@, part@),
{
    let mut i: usize = 0;
    while i < chars.len()
        invariant
            i <= chars@.len(),
            forall|k: int| 0 <= k < i ==> !stands_at(chars@, part@, k),
        decreases chars@.len() - i,
    {
        if matches_at(chars, part, i) {
            return true;
        }
        i = i + 1;
    }
    let found: bool = matches_at(chars, part, i);
    assert(found == occurs(chars@, part@)) by {
        if found {
            assert(stands_at(chars@, part@, i as int));
        }
        if occurs(chars@, part@) {
            let k = choose|k: int| stands_at(chars@, part@, k);
            assert(k <= chars@.len());
            assert(k == i);
        }
    }
    found
}

/// Whether `part` stands somewhere in the text.
pub fn contains_text(s: &str, part: &str) -> (r: bool)
    ensures
        r == occurs(s@, part@),
{
    let chars = chars_of(s);
    let part = chars_of(part);
    chars_occur(&chars, &part)
}

/// The lower-case form of an ASCII letter; other characters are unchanged.
pub open spec fn ascii_lower_char(c: char) -> char {
    if 'A' <= c <= 'Z' {
        (c as u8 + 32) as u8 as char
    } else {
        c
    }
}

/// The text with ASCII letters in lower case.
pub open spec fn ascii_lower_spec(s: Seq<char>) -> Seq<char> {
    s.map_values(|c: char| ascii_lower_char(c))
}

fn lower_char(c: char) -> (r: char)
    ensures
        r == ascii_lower_char(c),
{
    if 'A' <= c && c <= 'Z' {
        (c as u8 + 32) as char
    } else {
        c
    }
}

/// The text with ASCII letters in lower case.
pub fn ascii_lower(s: &str) -> (r: String)
    ensures
        r@ == ascii_lower_spec(s@),
{
    let chars = chars_of(s);
    let mut r = String::new();
    let mut i: usize = 0;
    assert(r@ =~= ascii_lower_spec(s@).take(0));
    while i < chars.len()
        invariant
            chars@ == s@,
            i <= s@.len(),
            r@ == ascii_lower_spec(s@).take(i as int),
        decreases s@.len() - i,
    {
        r.push(lower_char(chars[i]));
        i = i + 1;
        assert(r@ =~= ascii_lower_spec(s@).take(i as int));
    }
    assert(r@ =~= ascii_lower_spec(s@));
    r
}

/// The text without its control characters.
pub open spec fn without_controls(s: Seq<char>) -> Seq<char> {
    s.filter(|c: char| !is_control_spec(c))
}

/// The text without its control characters.
pub fn sanitize_display(value: &str) -> (r: String)
    ensures
        r@ == without_controls(value@),
        forall|i: int| 0 <= i < r@.len() ==> !is_control_spec(#[trigger] r@[i]),
{
    let chars = chars_of(value);
    let mut r = String::new();
    let mut i: usize = 0;
    let ghost visible = |c: char| !is_control_spec(c);
    assert(value@.take(0).filter(visible) =~= Seq::empty()) by {
        reveal(Seq::filter);
        assert(value@.take(0) =~= Seq::empty());
    }
    assert(r@ =~= Seq::empty());
    while i < chars.len()
        invariant
            chars@ == value@,
            i <= value@.len(),
            visible == |c: char| !is_control_spec(c),
            r@ == value@.take(i as int).filter(visible),
        decreases value@.len() - i,
    {
        assert(value@.take(i + 1).drop_last() =~= value@.take(i as int));
        assert(value@.take(i + 1).filter(visible) == if visible(value@[i as int]) {
            value@.take(i as int).filter(visible).push(value@[i as int])
        } else {
            value@.take(i as int).filter(visible)
        }) by {
            reveal(Seq::filter);
        }
        if !is_control(chars[i]) {
            r.push(chars[i]);
        }
        i = i + 1;
    }
    assert(value@.take(i as int) =~= value@);
    proof {
        broadcast use vstd::seq_lib::group_filter_ensures;
        assert(forall|i: int| 0 <= i < r@.len() ==> visible(#[trigger] r@[i]));
    }
    r
}

/// Whether a control character occurs in the text.
pub fn has_control(s: &str) -> (r: bool)
    ensures
        r == exists|i: int| 0 <= i < s@.len() && is_control_spec(#[trigger] s@[i]),
{
    let chars = chars_of(s);
    let mut i: usize = 0;
    while i < chars.len()
        invariant
            chars@ == s@,
            i <= s@.len(),
            forall|k: int| 0 <= k < i ==> !is_control_spec(#[trigger] s@[k]),
        decreases s@.len() - i,
    {
        if is_control(chars[i]) {
            assert(is_control_spec(s@[i as int]));
            return true;
        }
        i = i + 1;
    }
    false
}

/// The position of the first white space in `s`, or its length.
pub open spec fn word_end(s: Seq<char>) -> int
    decreases s.len(),
{
    if s.len() == 0 || is_whitespace_spec(s[0]) {
        0
    } else {
        1 + word_end(s.drop_first())
    }
}

/// The words of `s`: what stands between white space.
pub open spec fn words_spec(s: Seq<char>) -> Seq<Seq<char>>
    decreases s.len(),
{
    if s.len() == 0 {
        Seq::empty()
    } else if is_whitespace_spec(s[0]) {
        words_spec(s.drop_first())
    } else {
        let end = word_end(s);
        if 0 < end <= s.len() {
            seq![s.take(end)] + words_spec(s.skip(end))
        } else {
            Seq::empty()
        }
    }
}

pub(crate) proof fn lemma_word_end(s: Seq<char>, i: int)
    requires
        0 <= i <= s.len(),
        forall|k: int| 0 <= k < i ==> !is_whitespace_spec(#[trigger] s[k]),
        i < s.len() ==> is_whitespace_spec(s[i]),
    ensures
        word_end(s) == i,
    decreases s.len(),
{
    if i > 0 {
        assert(!is_whitespace_spec(s[0]));
        assert forall|k: int| 0 <= k < i - 1 implies !is_whitespace_spec(
            #[trigger] s.drop_first()[k],
        ) by {
            assert(s.drop_first()[k] == s[k + 1]);
        }
        lemma_word_end(s.drop_first(), i - 1);
    }
}

/// The words of the text: what stands between white space.
pub fn words(s: &str) -> (r: Vec<&str>)
    ensures
        views(r@) == words_spec(s@),
{
    let chars = chars_of(s);
    let mut list: Vec<&str> = Vec::new();
    let mut i: usize = 0;
    assert(s@.skip(0) =~= s@);
    assert(views(list@) + words_spec(s@) =~= words_spec(s@));
    while i < chars.len()
        invariant
            chars@ == s@,
            i <= s@.len(),
            views(list@) + words_spec(s@.skip(i as int)) == words_spec(s@),
        decreases s@.len() - i,
    {
        let ghost rest = s@.skip(i as int);
        if is_whitespace(chars[i]) {
            assert(rest.drop_first() =~= s@.skip(i + 1));
            i = i + 1;
            continue;
        }
        let start: usize = i;
        while i < chars.len() && !is_whitespace(chars[i])
            invariant
                chars@ == s@,
                start <= i <= s@.len(),
                forall|k: int| start <= k < i ==> !is_whitespace_spec(#[trigger] s@[k]),
            decreases s@.len() - i,
        {
            i = i + 1;
        }
        let word = s.substring_char(start, i);
        let ghost before = views(list@);
        list.push(word);
        proof {
            let n = i - start;
            assert forall|k: int| 0 <= k < n implies !is_whitespace_spec(#[trigger] rest[k]) by {
                assert(rest[k] == s@[start + k]);
            }
            lemma_word_end(rest, n);
            assert(!is_whitespace_spec(rest[0]));
            assert(n > 0);
            assert(rest.take(n) =~= word@);
            assert(rest.skip(n) =~= s@.skip(i as int));
            assert(views(list@) =~= before.push(word@));
            assert(views(list@) + words_spec(s@.skip(i as int)) =~= before + (seq![word@]
                + words_spec(s@.skip(i as int))));
        }
    }
    assert(s@.skip(i as int) =~= Seq::empty());
    assert(views(list@) + Seq::empty() =~= views(list@));
    list
}

/// How many bytes a character takes in UTF-8.
pub open spec fn char_bytes_spec(c: char) -> int {
    if c <= '\u{7f}' {
        1
    } else if c <= '\u{7ff}' {
        2
    } else if c <= '\u{ffff}' {
        3
    } else {
        4
    }
}

/// How many bytes a text takes in UTF-8.
pub open spec fn byte_length(s: Seq<char>) -> int
    decreases s.len(),
{
    if s.len() == 0 {
        0
    } else {
        byte_length(s.drop_last()) + char_bytes_spec(s.last())
    }
}

/// How many bytes a character takes in UTF-8.
pub fn char_bytes(c: char) -> (r: usize)
    ensures
        r == char_bytes_spec(c),
{
    if c <= '\u{7f}' {
        1
    } else if c <= '\u{7ff}' {
        2
    } else if c <= '\u{ffff}' {
        3
    } else {
        4
    }
}

/// The sum, at most `usize::MAX`.
pub open spec fn saturating_sum(a: int, b: int) -> int {
    if a + b <= usize::MAX {
        a + b
    } else {
        usize::MAX as int
    }
}

/// The sum, at most `usize::MAX`.
pub fn saturating(a: usize, b: usize) -> (r: usize)
    ensures
        r == saturating_sum(a as int, b as int),
{
    if b > usize::MAX - a {
        usize::MAX
    } else {
        a + b
    }
}

/// The bytes that the characters from `start` to below `end` take in UTF-8, at most `usize::MAX`.
pub fn bytes_between(chars: &[char], start: usize, end: usize) -> (r: usize)
    requires
        start <= end <= chars@.len(),
    ensures
        r == saturating_sum(byte_length(chars@.subrange(start as int, end as int)), 0),
{
    let mut total: usize = 0;
    let mut i: usize = start;
    assert(chars@.subrange(start as int, start as int) =~= Seq::empty());
    while i < end
        invariant
            start <= i <= end <= chars@.len(),
            total == saturating_sum(byte_length(chars@.subrange(start as int, i as int)), 0),
            byte_length(chars@.subrange(start as int, i as int)) >= 0,
        decreases end - i,
    {
        assert(chars@.subrange(start as int, i + 1).drop_last() =~= chars@.subrange(
            start as int,
            i as int,
        ));
        total = saturating(total, char_bytes(chars[i]));
        i = i + 1;
    }
    total
}

/// The bytes of a text in UTF-8 are as many as their number says.
pub proof fn byte_length_is_utf8_length(s: Seq<char>)
    ensures
        byte_length(s) == vstd::utf8::encode_utf8(s).len(),
    decreases s.len(),
{
    if s.len() == 0 {
    } else {
        lemma_byte_length_first(s);
        byte_length_is_utf8_length(s.drop_first());
        lemma_char_bytes(s[0]);
    }
}

proof fn lemma_char_bytes(c: char)
    ensures
        vstd::utf8::encode_scalar(c as u32).len() == char_bytes_spec(c),
{
    vstd::utf8::char_is_scalar(c);
    assert((c <= '\u{7f}') == ((c as u32) <= 0x7f));
    assert((c <= '\u{7ff}') == ((c as u32) <= 0x7ff));
    assert((c <= '\u{ffff}') == ((c as u32) <= 0xffff));
}

proof fn lemma_byte_length_first(s: Seq<char>)
    requires
        s.len() > 0,
    ensures
        byte_length(s) == char_bytes_spec(s[0]) + byte_length(s.drop_first()),
    decreases s.len(),
{
    if s.len() == 1 {
        assert(s.drop_last() =~= Seq::empty());
        assert(s.drop_first() =~= Seq::empty());
    } else {
        lemma_byte_length_first(s.drop_last());
        assert(s.drop_last().drop_first() =~= s.drop_first().drop_last());
        assert(s.drop_first().last() == s.last());
    }
}

} // verus!
