//! How texts come apart: lines, lists, words, and what white space counts for.
use crate::net::lemma_split_piece;
use crate::text::{
    first_index, is_whitespace_spec, lemma_first_index, lemma_first_index_unique, lines_spec,
    list_items, split_list_spec, split_once_spec, split_spec, trim_end_spec, trim_spec,
    trim_start_spec, words_spec,
};
use vstd::prelude::*;

verus! {

/// Whether a text is white space throughout.
pub open spec fn blank(s: Seq<char>) -> bool {
    forall|i: int| 0 <= i < s.len() ==> is_whitespace_spec(#[trigger] s[i])
}

/// Whether a text has no white space at its ends.
pub open spec fn bare(s: Seq<char>) -> bool {
    s.len() > 0 ==> !is_whitespace_spec(s[0]) && !is_whitespace_spec(s.last())
}

/// Whether a text has no white space at all.
pub open spec fn unspaced(s: Seq<char>) -> bool {
    forall|i: int| 0 <= i < s.len() ==> !is_whitespace_spec(#[trigger] s[i])
}

proof fn lemma_blank_start(before: Seq<char>, s: Seq<char>)
    requires
        blank(before),
    ensures
        trim_start_spec(before + s) == trim_start_spec(s),
    decreases before.len(),
{
    let whole = before + s;
    if before.len() > 0 {
        assert(whole[0] == before[0]);
        assert(is_whitespace_spec(before[0]));
        assert(whole.drop_first() =~= before.drop_first() + s);
        assert forall|i: int| 0 <= i < before.drop_first().len() implies is_whitespace_spec(
            #[trigger] before.drop_first()[i],
        ) by {
            assert(before.drop_first()[i] == before[i + 1]);
        }
        lemma_blank_start(before.drop_first(), s);
    } else {
        assert(whole =~= s);
    }
}

proof fn lemma_blank_end(s: Seq<char>, after: Seq<char>)
    requires
        blank(after),
    ensures
        trim_end_spec(s + after) == trim_end_spec(s),
    decreases after.len(),
{
    let whole = s + after;
    if after.len() > 0 {
        assert(whole.last() == after[after.len() - 1]);
        assert(whole.drop_last() =~= s + after.drop_last());
        lemma_blank_end(s, after.drop_last());
    } else {
        assert(whole =~= s);
    }
}

/// White space round a text is trimmed away, and nothing else.
pub proof fn trimming_drops_white_space_around(before: Seq<char>, s: Seq<char>, after: Seq<char>)
    requires
        blank(before),
        blank(after),
        bare(s),
    ensures
        trim_spec(before + s + after) == s,
{
    assert(before + s + after =~= before + (s + after));
    lemma_blank_start(before, s + after);
    if s.len() > 0 {
        assert((s + after)[0] == s[0]);
        lemma_blank_end(s, after);
    } else {
        assert(s + after =~= after + s);
        lemma_blank_start(after, s);
    }
}

/// A text comes apart at the first of its separators, where it has one.
pub proof fn texts_come_apart_at_first_separator(a: Seq<char>, c: char, b: Seq<char>)
    requires
        !a.contains(c),
    ensures
        split_once_spec(a + seq![c] + b, c) == Some((a, b)),
        split_once_spec(a, c) is None,
{
    let s = a + seq![c] + b;
    assert forall|k: int| 0 <= k < a.len() implies s[k] != c by {
        assert(a.contains(a[k]));
    }
    lemma_first_index_unique(s, c, a.len() as int);
    assert(s.take(a.len() as int) =~= a);
    assert(s.skip(a.len() as int + 1) =~= b);
    lemma_first_index(a, c);
}

/// What stands before a separator and what stands behind it come apart each for itself.
pub proof fn pieces_join_at_separators(a: Seq<char>, sep: char, b: Seq<char>)
    ensures
        split_spec(a + seq![sep] + b, sep) == split_spec(a, sep) + split_spec(b, sep),
        !a.contains(sep) ==> split_spec(a, sep) == seq![a],
    decreases a.len(),
{
    lemma_first_index(a, sep);
    let i = first_index(a, sep);
    if i < a.len() {
        let first = a.take(i);
        let rest = a.skip(i + 1);
        assert forall|k: int| 0 <= k < first.len() implies first[k] != sep by {}
        assert(!first.contains(sep));
        assert(a =~= first + seq![sep] + rest);
        assert(a + seq![sep] + b =~= first + seq![sep] + (rest + seq![sep] + b));
        lemma_split_piece(first, sep, rest);
        lemma_split_piece(first, sep, rest + seq![sep] + b);
        pieces_join_at_separators(rest, sep, b);
        assert(seq![first] + (split_spec(rest, sep) + split_spec(b, sep)) =~= seq![first]
            + split_spec(rest, sep) + split_spec(b, sep));
    } else {
        lemma_split_piece(a, sep, b);
    }
}

proof fn lemma_items_join(a: Seq<Seq<char>>, b: Seq<Seq<char>>)
    ensures
        list_items(a + b) == list_items(a) + list_items(b),
    decreases a.len(),
{
    if a.len() > 0 {
        assert((a + b)[0] == a[0]);
        assert((a + b).drop_first() =~= a.drop_first() + b);
        lemma_items_join(a.drop_first(), b);
        let item = trim_spec(a[0]);
        assert(seq![item] + (list_items(a.drop_first()) + list_items(b)) =~= seq![item]
            + list_items(a.drop_first()) + list_items(b));
    } else {
        assert(a + b =~= b);
        assert(list_items(a) + list_items(b) =~= list_items(b));
    }
}

/// Two lists with a comma between them are one list: the items of the first and then those of the
/// second.
pub proof fn lists_join_at_commas(a: Seq<char>, b: Seq<char>)
    ensures
        split_list_spec(a + seq![','] + b) == split_list_spec(a) + split_list_spec(b),
{
    pieces_join_at_separators(a, ',', b);
    lemma_items_join(split_spec(a, ','), split_spec(b, ','));
}

/// A text without a comma is a list of one item, without the white space round it, or an empty list
/// where nothing else stands in it.
pub proof fn list_of_one_item(before: Seq<char>, item: Seq<char>, after: Seq<char>)
    requires
        blank(before),
        blank(after),
        bare(item),
        !item.contains(','),
    ensures
        split_list_spec(before + item + after) == (if item.len() > 0 {
            seq![item]
        } else {
            Seq::empty()
        }),
{
    let s = before + item + after;
    assert forall|k: int| 0 <= k < s.len() implies s[k] != ',' by {
        if k < before.len() {
            assert(is_whitespace_spec(before[k]));
        } else if k < before.len() + item.len() {
            assert(item.contains(item[k - before.len()]));
        } else {
            assert(s[k] == after[k - before.len() - item.len()]);
            assert(is_whitespace_spec(after[k - before.len() - item.len()]));
        }
    }
    assert(!s.contains(','));
    lemma_split_piece(s, ',', s);
    trimming_drops_white_space_around(before, item, after);
    let pieces = seq![s];
    assert(pieces.drop_first() =~= Seq::empty());
    assert(list_items(pieces.drop_first()) =~= Seq::empty());
    assert(seq![item] + Seq::empty() =~= seq![item]);
}

/// A line ends at the line feed, or at the carriage return before it; what stands behind comes apart
/// for itself, and a text without a line feed is one line unless it is empty.
pub proof fn lines_come_apart(line: Seq<char>, rest: Seq<char>)
    requires
        !line.contains('\n'),
    ensures
        line.len() > 0 && line.last() == '\r' ==> lines_spec(line + seq!['\n'] + rest) == seq![
            line.drop_last(),
        ] + lines_spec(rest),
        line.len() == 0 || line.last() != '\r' ==> lines_spec(line + seq!['\n'] + rest) == seq![line]
            + lines_spec(rest),
        line.len() > 0 ==> lines_spec(line) == seq![line],
        line.len() == 0 ==> lines_spec(line).len() == 0,
{
    let s = line + seq!['\n'] + rest;
    assert forall|k: int| 0 <= k < line.len() implies s[k] != '\n' by {
        assert(line.contains(line[k]));
    }
    lemma_first_index_unique(s, '\n', line.len() as int);
    assert(s.take(line.len() as int) =~= line);
    assert(s.skip(line.len() as int + 1) =~= rest);
    lemma_first_index(line, '\n');
}

/// Words stand between white space: what stands before a white space and what stands behind it come
/// apart each for itself, and a text without white space is one word unless it is empty.
pub proof fn words_stand_between_white_space(a: Seq<char>, space: char, b: Seq<char>)
    requires
        is_whitespace_spec(space),
    ensures
        words_spec(a + seq![space] + b) == words_spec(a) + words_spec(b),
        unspaced(a) && a.len() > 0 ==> words_spec(a) == seq![a],
        a.len() == 0 ==> words_spec(a).len() == 0,
    decreases a.len(),
{
    let s = a + seq![space] + b;
    if a.len() == 0 {
        assert(s[0] == space);
        assert(s.drop_first() =~= b);
        assert(words_spec(a) + words_spec(b) =~= words_spec(b));
    } else if is_whitespace_spec(a[0]) {
        assert(s[0] == a[0]);
        assert(s.drop_first() =~= a.drop_first() + seq![space] + b);
        words_stand_between_white_space(a.drop_first(), space, b);
    } else {
        let end = lemma_end_of_word(a, 0);
        assert(s[0] == a[0]);
        assert forall|k: int| 0 <= k < end implies !is_whitespace_spec(#[trigger] s[k]) by {
            assert(s[k] == a[k]);
        }
        assert(end < s.len() && is_whitespace_spec(s[end]));
        crate::text::lemma_word_end(a, end);
        crate::text::lemma_word_end(s, end);
        let rest = a.skip(end);
        assert(s.take(end) =~= a.take(end));
        assert(s.skip(end) =~= rest + seq![space] + b);
        words_stand_between_white_space(rest, space, b);
        assert(seq![a.take(end)] + (words_spec(rest) + words_spec(b)) =~= seq![a.take(end)]
            + words_spec(rest) + words_spec(b));
        if unspaced(a) {
            if end < a.len() {
                assert(is_whitespace_spec(a[end]));
            }
            assert(a.take(end) =~= a);
            assert(rest.len() == 0);
            assert(words_spec(a) =~= seq![a]);
        }
    }
}

/// The end of the word that reaches over a position.
proof fn lemma_end_of_word(s: Seq<char>, i: int) -> (end: int)
    requires
        0 <= i < s.len(),
        forall|k: int| 0 <= k <= i ==> !is_whitespace_spec(#[trigger] s[k]),
    ensures
        i < end <= s.len(),
        forall|k: int| 0 <= k < end ==> !is_whitespace_spec(#[trigger] s[k]),
        end < s.len() ==> is_whitespace_spec(s[end]),
    decreases s.len() - i,
{
    if i + 1 == s.len() || is_whitespace_spec(s[i + 1]) {
        i + 1
    } else {
        lemma_end_of_word(s, i + 1)
    }
}

} // verus!
