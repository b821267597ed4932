//! Texts: taking them apart and putting them together.

use vstd::prelude::*;

verus! {

/// The pieces of `text` between occurrences of `separator`.
pub open spec fn pieces(text: Seq<char>, separator: char) -> Seq<Seq<char>>
    decreases text.len(),
{
    if text.contains(separator) {
        let at = text.index_of_first(separator)->0;
        proof {
            text.index_of_first_ensures(separator);
        }
        seq![text.take(at)] + pieces(text.skip(at + 1), separator)
    } else {
        seq![text]
    }
}

/// `parts` one after the other, with `separator` between each two.
pub open spec fn joined(parts: Seq<Seq<char>>, separator: Seq<char>) -> Seq<char>
    decreases parts.len(),
{
    if parts.len() == 0 {
        Seq::empty()
    } else if parts.len() == 1 {
        parts[0]
    } else {
        joined(parts.drop_last(), separator) + separator + parts.last()
    }
}

/// What the strings in `parts` read.
pub open spec fn texts(parts: Seq<String>) -> Seq<Seq<char>> {
    parts.map_values(|part: String| part@)
}

/// Takes `text` apart at every `separator`.
pub fn split(text: &str, separator: char) -> (parts: Vec<String>)
    ensures
        texts(parts@) == pieces(text@, separator),
{
    let len: usize = text.unicode_len();
    let mut parts: Vec<String> = Vec::new();
    let mut start: usize = 0;
    let mut i: usize = 0;
    assert(text@.skip(0) =~= text@);
    while i < len
        invariant
            len == text@.len(),
            start <= i <= len,
            !text@.subrange(start as int, i as int).contains(separator),
            pieces(text@, separator) == texts(parts@) + pieces(
                text@.skip(start as int),
                separator,
            ),
        decreases len - i,
    {
        if text.get_char(i) == separator {
            let ghost before = parts@;
            let piece: String = text.substring_char(start, i).to_owned();
            proof {
                assert forall|k: int| 0 <= k < i - start implies text@.skip(start as int)[k]
                    != separator by {
                    assert(text@.subrange(start as int, i as int)[k] == text@[start + k]);
                }
                lemma_first_piece(text@.skip(start as int), separator, i - start);
                assert(text@.skip(start as int).take(i - start) =~= piece@);
                assert(text@.skip(start as int).skip(i - start + 1) =~= text@.skip(i + 1));
            }
            parts.push(piece);
            start = i + 1;
            proof {
                assert(texts(parts@) =~= texts(before).push(piece@));
                assert(pieces(text@, separator) =~= texts(parts@) + pieces(
                    text@.skip(start as int),
                    separator,
                ));
                assert(text@.subrange(start as int, i + 1) =~= Seq::<char>::empty());
            }
        } else {
            assert(text@.subrange(start as int, i + 1) =~= text@.subrange(
                start as int,
                i as int,
            ).push(text@[i as int]));
        }
        i = i + 1;
    }
    let ghost before = parts@;
    let rest: String = text.substring_char(start, len).to_owned();
    parts.push(rest);
    proof {
        assert(text@.subrange(start as int, len as int) =~= text@.skip(start as int));
        assert(texts(parts@) =~= texts(before).push(rest@));
        assert(texts(parts@) =~= pieces(text@, separator));
    }
    parts
}

proof fn lemma_first_piece(text: Seq<char>, separator: char, at: int)
    requires
        0 <= at < text.len(),
        text[at] == separator,
        forall|k: int| 0 <= k < at ==> text[k] != separator,
    ensures
        pieces(text, separator) == seq![text.take(at)] + pieces(text.skip(at + 1), separator),
{
    assert(text.contains(separator));
    text.index_of_first_ensures(separator);
    let first = text.index_of_first(separator)->0;
    assert(first == at);
}

/// Whether two texts read the same.
pub fn same_text(a: &str, b: &str) -> (same: bool)
    ensures
        same == (a@ == b@),
{
    a.to_owned() == b.to_owned()
}

/// [`itertools::Itertools::join`] over the strings in `parts`: each as it reads, with `separator`
/// between each two, and the empty text where there is none.
#[verifier::external_body]
pub(crate) fn join(parts: &Vec<String>, separator: &str) -> (text: String)
    ensures
        text@ == joined(texts(parts@), separator@),
{
    itertools::Itertools::join(&mut parts.iter(), separator)
}

/// `prefix` followed by `text`.
pub fn prefixed(prefix: &str, text: &str) -> (both: String)
    ensures
        both@ == prefix@ + text@,
{
    prefix.to_owned().concat(text)
}

/// No piece holds the separator, and there is always at least one.
pub proof fn pieces_hold_no_separator(text: Seq<char>, separator: char)
    ensures
        pieces(text, separator).len() > 0,
        forall|i: int|
            0 <= i < pieces(text, separator).len() ==> !(#[trigger] pieces(
                text,
                separator,
            )[i]).contains(separator),
    decreases text.len(),
{
    if text.contains(separator) {
        text.index_of_first_ensures(separator);
        let at = text.index_of_first(separator)->0;
        let rest = text.skip(at + 1);
        pieces_hold_no_separator(rest, separator);
        let all = pieces(text, separator);
        assert forall|i: int| 0 <= i < all.len() implies !(#[trigger] all[i]).contains(
            separator,
        ) by {
            if i == 0 {
                assert(all[0] == text.take(at));
                if text.take(at).contains(separator) {
                    let k = text.take(at).index_of(separator);
                    assert(text[k] == separator);
                }
            } else {
                assert(all[i] == pieces(rest, separator)[i - 1]);
            }
        }
    }
}

/// What was taken apart is put together again by joining the pieces.
pub proof fn pieces_make_up_the_text(text: Seq<char>, separator: char)
    ensures
        joined(pieces(text, separator), seq![separator]) == text,
    decreases text.len(),
{
    if text.contains(separator) {
        text.index_of_first_ensures(separator);
        let at = text.index_of_first(separator)->0;
        let rest = text.skip(at + 1);
        pieces_make_up_the_text(rest, separator);
        pieces_hold_no_separator(rest, separator);
        joined_starts_with_the_first(text.take(at), pieces(rest, separator), seq![separator]);
        assert(text.take(at) + seq![separator] + rest =~= text);
    } else {
        assert(pieces(text, separator) =~= seq![text]);
    }
}

/// What is joined starts with the first part, and the separator and the rest follow.
pub proof fn joined_starts_with_the_first(
    first: Seq<char>,
    rest: Seq<Seq<char>>,
    separator: Seq<char>,
)
    ensures
        joined(Seq::empty(), separator) == Seq::<char>::empty(),
        joined(seq![first], separator) == first,
        rest.len() > 0 ==> joined(seq![first] + rest, separator) == first + separator + joined(
            rest,
            separator,
        ),
    decreases rest.len(),
{
    let all = seq![first] + rest;
    if rest.len() == 1 {
        assert(all.drop_last() =~= seq![first]);
        assert(joined(all.drop_last(), separator) == first);
        assert(joined(rest, separator) == rest[0]);
        assert(joined(all, separator) =~= first + separator + rest[0]);
    } else if rest.len() > 1 {
        joined_starts_with_the_first(first, rest.drop_last(), separator);
        assert(all.drop_last() =~= seq![first] + rest.drop_last());
        assert(joined(all, separator) =~= first + separator + joined(rest, separator));
    }
}

/// Parts that do not hold the separator are found again in what they were joined to.
pub proof fn joined_parts_are_the_pieces(parts: Seq<Seq<char>>, separator: char)
    requires
        parts.len() > 0,
        forall|i: int| 0 <= i < parts.len() ==> !(#[trigger] parts[i]).contains(separator),
    ensures
        pieces(joined(parts, seq![separator]), separator) == parts,
    decreases parts.len(),
{
    let first = parts[0];
    let rest = parts.skip(1);
    assert(parts =~= seq![first] + rest);
    joined_starts_with_the_first(first, rest, seq![separator]);
    if rest.len() == 0 {
        assert(parts =~= seq![first]);
        assert(pieces(first, separator) =~= parts);
    } else {
        assert forall|i: int| 0 <= i < rest.len() implies !(#[trigger] rest[i]).contains(
            separator,
        ) by {
            assert(rest[i] == parts[i + 1]);
        }
        joined_parts_are_the_pieces(rest, separator);
        let text = joined(parts, seq![separator]);
        let tail = joined(rest, seq![separator]);
        assert(text == first + seq![separator] + tail);
        assert forall|k: int| 0 <= k < first.len() implies text[k] != separator by {
            assert(text[k] == first[k]);
            assert(first.contains(first[k]));
        }
        lemma_first_piece(text, separator, first.len() as int);
        assert(text.take(first.len() as int) =~= first);
        assert(text.skip(first.len() as int + 1) =~= tail);
    }
}

/// What strings read is taken in their order, each as it is.
pub proof fn texts_are_what_strings_read(parts: Seq<String>, i: int)
    requires
        0 <= i < parts.len(),
    ensures
        texts(parts).len() == parts.len(),
        texts(parts)[i] == parts[i]@,
{
}

} // verus!
