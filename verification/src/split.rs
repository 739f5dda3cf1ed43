//! Splitting text into pieces, words and lines, and joining pieces.

use vstd::prelude::*;

use crate::text::{self, chars_of, is_whitespace};

verus! {

/// The characters at which a text is cut.
#[derive(Debug, Clone, Copy)]
pub enum Separator {
    /// Every white space character.
    Whitespace,
    /// One given character.
    One(char),
    /// Every character that cannot stand in a device address: all but
    /// hexadecimal digits and colons.
    OutsideAddress,
}

/// Whether a character is an ASCII hexadecimal digit.
pub open spec fn is_hex_digit(c: char) -> bool {
    '0' <= c <= '9' || 'a' <= c <= 'f' || 'A' <= c <= 'F'
}

/// Whether a character can stand in a device address.
pub open spec fn is_address_char(c: char) -> bool {
    is_hex_digit(c) || c == ':'
}

/// Whether a character can stand in a device address.
pub fn address_char(c: char) -> (ok: bool)
    ensures
        ok == is_address_char(c),
{
    ('0' <= c && c <= '9') || ('a' <= c && c <= 'f') || ('A' <= c && c <= 'F') || c == ':'
}

impl Separator {
    /// Whether the text is cut at this character.
    pub open spec fn cuts(self, c: char) -> bool {
        match self {
            Separator::Whitespace => text::is_space(c),
            Separator::One(sep) => c == sep,
            Separator::OutsideAddress => !is_address_char(c),
        }
    }

    /// Whether the text is cut at this character.
    fn is_at(self, c: char) -> (cut: bool)
        ensures
            cut == self.cuts(c),
    {
        match self {
            Separator::Whitespace => is_whitespace(c),
            Separator::One(sep) => c == sep,
            Separator::OutsideAddress => !address_char(c),
        }
    }
}

/// The texts of a list of strings.
pub open spec fn views(list: Seq<String>) -> Seq<Seq<char>> {
    list.map_values(|s: String| s@)
}

/// The pieces of a text between its separators: one more than there are
/// separators, in order, each possibly empty.
pub open spec fn pieces(text: Seq<char>, sep: Separator) -> Seq<Seq<char>>
    decreases text.len(),
{
    if text.len() == 0 {
        seq![Seq::empty()]
    } else {
        let before = pieces(text.drop_last(), sep);
        if sep.cuts(text.last()) {
            before.push(Seq::empty())
        } else {
            before.drop_last().push(before.last().push(text.last()))
        }
    }
}

/// The pieces of a text between its separators.
pub fn split(text: &str, sep: Separator) -> (parts: Vec<String>)
    ensures
        views(parts@) == pieces(text@, sep),
{
    let chars = chars_of(text);
    let mut parts: Vec<String> = Vec::new();
    let mut current = String::new();
    for i in 0..chars.len()
        invariant
            chars@ == text@,
            pieces(text@.take(i as int), sep) =~= views(parts@).push(current@),
    {
        let ghost before = pieces(text@.take(i as int), sep);
        assert(text@.take(i + 1).drop_last() =~= text@.take(i as int));
        assert(before.drop_last() =~= views(parts@));
        if sep.is_at(chars[i]) {
            parts.push(current);
            assert(views(parts@) =~= before);
            current = String::new();
        } else {
            current.push(chars[i]);
        }
    }
    assert(text@.take(text@.len() as int) =~= text@);
    let ghost last = current@;
    let ghost done = views(parts@);
    parts.push(current);
    assert(views(parts@) =~= done.push(last));
    parts
}

/// The words of a text: its pieces between white space, without empty ones.
pub open spec fn words_of(text: Seq<char>) -> Seq<Seq<char>> {
    pieces(text, Separator::Whitespace).filter(|piece: Seq<char>| piece.len() > 0)
}

/// The words of a text, in order.
pub fn words(text: &str) -> (list: Vec<String>)
    ensures
        views(list@) == words_of(text@),
{
    let parts = split(text, Separator::Whitespace);
    let ghost all = pieces(text@, Separator::Whitespace);
    let ghost full = |piece: Seq<char>| piece.len() > 0;
    let mut list: Vec<String> = Vec::new();
    proof {
        reveal(Seq::filter);
        assert(all.take(0).filter(full) =~= Seq::<Seq<char>>::empty());
    }
    for i in 0..parts.len()
        invariant
            views(parts@) == all,
            full == (|piece: Seq<char>| piece.len() > 0),
            views(list@) =~= all.take(i as int).filter(full),
    {
        reveal(Seq::filter);
        let ghost before = list@;
        assert(all[i as int] == parts@[i as int]@);
        assert(all.take(i + 1).drop_last() =~= all.take(i as int));
        if !parts[i].as_str().is_empty() {
            let word = parts[i].clone();
            list.push(word);
            assert(views(list@) =~= views(before).push(all[i as int]));
        }
    }
    assert(all.take(all.len() as int) =~= all);
    list
}

/// A line without a carriage return at its end.
pub open spec fn without_return(line: Seq<char>) -> Seq<char> {
    if line.len() > 0 && line.last() == '\r' {
        line.drop_last()
    } else {
        line
    }
}

/// The lines of a text. A line ends in a line feed, or in a carriage return
/// and a line feed; the last line needs no line end, and is none if empty.
pub open spec fn lines_of(text: Seq<char>) -> Seq<Seq<char>> {
    let parts = pieces(text, Separator::One('\n'));
    let ended = parts.drop_last().map_values(|line: Seq<char>| without_return(line));
    if parts.last().len() == 0 {
        ended
    } else {
        ended.push(parts.last())
    }
}

/// A line without a carriage return at its end.
fn strip_return(line: &str) -> (rest: String)
    ensures
        rest@ == without_return(line@),
{
    let count = line.unicode_len();
    if count > 0 && line.get_char(count - 1) == '\r' {
        let rest = line.substring_char(0, count - 1);
        assert(rest@ =~= line@.drop_last());
        rest.to_owned()
    } else {
        line.to_owned()
    }
}

/// There is always at least one piece.
pub proof fn lemma_some_piece(text: Seq<char>, sep: Separator)
    ensures
        pieces(text, sep).len() > 0,
    decreases text.len(),
{
    if text.len() > 0 {
        lemma_some_piece(text.drop_last(), sep);
    }
}

/// The lines of a text, in order.
pub fn lines(text: &str) -> (list: Vec<String>)
    ensures
        views(list@) == lines_of(text@),
{
    let parts = split(text, Separator::One('\n'));
    let ghost all = pieces(text@, Separator::One('\n'));
    proof {
        lemma_some_piece(text@, Separator::One('\n'));
        assert(all.len() == parts@.len());
    }
    let last: usize = parts.len() - 1;
    let mut list: Vec<String> = Vec::new();
    for i in 0..last
        invariant
            views(parts@) == all,
            last == parts@.len() - 1,
            views(list@) =~= all.take(i as int).map_values(|line: Seq<char>| without_return(line)),
    {
        let ghost before = list@;
        assert(all[i as int] == parts@[i as int]@);
        list.push(strip_return(parts[i].as_str()));
        assert(views(list@) =~= views(before).push(without_return(all[i as int])));
    }
    assert(all.take(last as int) =~= all.drop_last());
    assert(all[last as int] == parts@[last as int]@);
    if !parts[last].as_str().is_empty() {
        let ghost before = list@;
        list.push(parts[last].clone());
        assert(views(list@) =~= views(before).push(all.last()));
    }
    list
}

/// The pieces in order, with a separator between any two neighbours.
pub open spec fn joined(list: Seq<Seq<char>>, sep: Seq<char>) -> Seq<char>
    decreases list.len(),
{
    if list.len() == 0 {
        Seq::empty()
    } else if list.len() == 1 {
        list.last()
    } else {
        joined(list.drop_last(), sep) + sep + list.last()
    }
}

/// The strings in order, with a separator between any two neighbours.
pub fn join(list: &[String], sep: &str) -> (all: String)
    ensures
        all@ == joined(views(list@), sep@),
{
    let ghost texts = views(list@);
    let mut all = String::new();
    for i in 0..list.len()
        invariant
            texts == views(list@),
            all@ == joined(texts.take(i as int), sep@),
    {
        assert(texts.take(i + 1).drop_last() =~= texts.take(i as int));
        assert(texts.take(i + 1).last() == list@[i as int]@);
        if i > 0 {
            all.append(sep);
        }
        all.append(list[i].as_str());
        if i == 0 {
            assert(all@ =~= list@[0]@);
        }
    }
    assert(texts.take(texts.len() as int) =~= texts);
    all
}

/// Joining the pieces with the character at which the text was cut gives the
/// text back.
pub proof fn law_joined_pieces_are_the_text(text: Seq<char>, sep: char)
    ensures
        joined(pieces(text, Separator::One(sep)), seq![sep]) == text,
    decreases text.len(),
{
    let parts = pieces(text, Separator::One(sep));
    if text.len() == 0 {
        assert(parts.last() =~= text);
    } else {
        let shorter = text.drop_last();
        let before = pieces(shorter, Separator::One(sep));
        law_joined_pieces_are_the_text(shorter, sep);
        lemma_some_piece(shorter, Separator::One(sep));
        if text.last() == sep {
            assert(parts.drop_last() =~= before);
            assert(joined(before, seq![sep]) + seq![sep] + Seq::<char>::empty() =~= text);
        } else {
            assert(parts.drop_last() =~= before.drop_last());
            assert(parts.last() == before.last().push(text.last()));
            if before.len() == 1 {
                assert(parts.last() =~= text);
            } else {
                let head = joined(before.drop_last(), seq![sep]) + seq![sep];
                assert(head + before.last() == shorter);
                assert(head + parts.last() =~= (head + before.last()).push(text.last()));
                assert(shorter.push(text.last()) =~= text);
            }
        }
    }
}

/// No piece holds a character at which the text is cut.
pub proof fn law_pieces_hold_no_separator(text: Seq<char>, sep: Separator, i: int, k: int)
    requires
        0 <= i < pieces(text, sep).len(),
        0 <= k < pieces(text, sep)[i].len(),
    ensures
        !sep.cuts(pieces(text, sep)[i][k]),
    decreases text.len(),
{
    if text.len() > 0 {
        let before = pieces(text.drop_last(), sep);
        lemma_some_piece(text.drop_last(), sep);
        if sep.cuts(text.last()) {
            if i < before.len() {
                law_pieces_hold_no_separator(text.drop_last(), sep, i, k);
            }
        } else if i < before.len() - 1 || k < before.last().len() {
            law_pieces_hold_no_separator(text.drop_last(), sep, i, k);
        }
    }
}

/// A word is never empty and holds no white space.
pub proof fn law_words_are_solid(text: Seq<char>, i: int, k: int)
    requires
        0 <= i < words_of(text).len(),
    ensures
        words_of(text)[i].len() > 0,
        0 <= k < words_of(text)[i].len() ==> !text::is_space(words_of(text)[i][k]),
{
    let parts = pieces(text, Separator::Whitespace);
    let full = |piece: Seq<char>| piece.len() > 0;
    let list = parts.filter(full);
    parts.lemma_filter_pred(full, i);
    assert(list.contains(list[i]));
    parts.lemma_filter_contains_rev(full, list[i]);
    let j = choose|j: int| 0 <= j < parts.len() && parts[j] == list[i];
    if 0 <= k < parts[j].len() {
        law_pieces_hold_no_separator(text, Separator::Whitespace, j, k);
    }
}

/// A text is cut at a separator: its pieces are those of what stands before the
/// separator, and those of what stands after it.
pub proof fn law_pieces_of_two_parts(a: Seq<char>, c: char, b: Seq<char>, sep: Separator)
    requires
        sep.cuts(c),
    ensures
        pieces(a + seq![c] + b, sep) == pieces(a, sep) + pieces(b, sep),
    decreases b.len(),
{
    let text = a + seq![c] + b;
    if b.len() == 0 {
        assert(text.drop_last() =~= a);
        assert(text.last() == c);
        assert(pieces(a, sep).push(Seq::empty()) =~= pieces(a, sep) + pieces(b, sep));
    } else {
        let shorter = b.drop_last();
        law_pieces_of_two_parts(a, c, shorter, sep);
        lemma_some_piece(shorter, sep);
        assert(text.drop_last() =~= a + seq![c] + shorter);
        assert(text.last() == b.last());
        let before = pieces(a, sep) + pieces(shorter, sep);
        if sep.cuts(b.last()) {
            assert(before.push(Seq::empty()) =~= pieces(a, sep) + pieces(b, sep));
        } else {
            assert(before.last() == pieces(shorter, sep).last());
            assert(before.drop_last().push(before.last().push(b.last())) =~= pieces(a, sep)
                + pieces(b, sep));
        }
    }
}

/// A text without a separator is one piece.
pub proof fn law_uncut_text_is_one_piece(text: Seq<char>, sep: Separator)
    requires
        forall|i: int| 0 <= i < text.len() ==> !sep.cuts(#[trigger] text[i]),
    ensures
        pieces(text, sep) == seq![text],
    decreases text.len(),
{
    if text.len() > 0 {
        let shorter = text.drop_last();
        assert forall|i: int| 0 <= i < shorter.len() implies !sep.cuts(#[trigger] shorter[i]) by {
            assert(shorter[i] == text[i]);
        }
        law_uncut_text_is_one_piece(shorter, sep);
        assert(!sep.cuts(text[text.len() - 1]));
        assert(shorter.push(text.last()) =~= text);
        assert(pieces(text, sep) =~= seq![text]);
    } else {
        assert(text =~= Seq::<char>::empty());
        assert(pieces(text, sep) =~= seq![text]);
    }
}

/// Which characters cut a text: the one that is given, white space, or all but
/// the characters of addresses.
pub proof fn law_separators_cut_at_their_characters(c: char, other: char)
    ensures
        Separator::One(c).cuts(other) <==> other == c,
        Separator::Whitespace.cuts(c) <==> text::is_space(c),
        !Separator::OutsideAddress.cuts(c) <==> "0123456789abcdefABCDEF:"@.contains(c),
        is_hex_digit(c) <==> "0123456789abcdefABCDEF"@.contains(c),
{
    reveal_strlit("0123456789abcdefABCDEF:");
    reveal_strlit("0123456789abcdefABCDEF");
    let all = "0123456789abcdefABCDEF:"@;
    let hex = "0123456789abcdefABCDEF"@;
    if '0' <= c <= '9' {
        assert(all[c as int - '0' as int] == c && hex[c as int - '0' as int] == c);
    }
    if 'a' <= c <= 'f' {
        assert(all[c as int - 'a' as int + 10] == c && hex[c as int - 'a' as int + 10] == c);
    }
    if 'A' <= c <= 'F' {
        assert(all[c as int - 'A' as int + 16] == c && hex[c as int - 'A' as int + 16] == c);
    }
    if c == ':' {
        assert(all[22] == c);
    }
}

/// Joining texts and cutting the result gives the texts back.
pub proof fn law_pieces_of_joined_are_the_texts(list: Seq<Seq<char>>, sep: char)
    requires
        list.len() > 0,
        forall|i: int| 0 <= i < list.len() ==> !(#[trigger] list[i]).contains(sep),
    ensures
        pieces(joined(list, seq![sep]), Separator::One(sep)) == list,
    decreases list.len(),
{
    let last = list.last();
    assert(!list[list.len() - 1].contains(sep));
    assert forall|i: int| 0 <= i < last.len() implies !Separator::One(sep).cuts(
        #[trigger] last[i],
    ) by {
        assert(last.contains(last[i]));
    }
    law_uncut_text_is_one_piece(last, Separator::One(sep));
    if list.len() == 1 {
        assert(list =~= seq![last]);
    } else {
        let before = list.drop_last();
        assert forall|i: int| 0 <= i < before.len() implies !(#[trigger] before[i]).contains(
            sep,
        ) by {
            assert(before[i] == list[i]);
        }
        law_pieces_of_joined_are_the_texts(before, sep);
        law_pieces_of_two_parts(joined(before, seq![sep]), sep, last, Separator::One(sep));
        assert(before + seq![last] =~= list);
    }
}

/// The words of a text are those before any of its white space, and those after
/// it.
pub proof fn law_words_of_two_parts(a: Seq<char>, c: char, b: Seq<char>)
    requires
        text::is_space(c),
    ensures
        words_of(a + seq![c] + b) == words_of(a) + words_of(b),
{
    law_pieces_of_two_parts(a, c, b, Separator::Whitespace);
    Seq::filter_distributes_over_add(
        pieces(a, Separator::Whitespace),
        pieces(b, Separator::Whitespace),
        |piece: Seq<char>| piece.len() > 0,
    );
}

/// A text without white space is one word, unless it is empty.
pub proof fn law_solid_text_is_one_word(text: Seq<char>)
    requires
        forall|i: int| 0 <= i < text.len() ==> !text::is_space(#[trigger] text[i]),
    ensures
        text.len() > 0 ==> words_of(text) == seq![text],
        text.len() == 0 ==> words_of(text).len() == 0,
{
    reveal(Seq::filter);
    let full = |piece: Seq<char>| piece.len() > 0;
    law_uncut_text_is_one_piece(text, Separator::Whitespace);
    let one = seq![text];
    assert(one.drop_last() =~= Seq::<Seq<char>>::empty());
    assert(one.drop_last().filter(full) =~= Seq::<Seq<char>>::empty());
    if text.len() > 0 {
        assert(one.filter(full) =~= seq![text]);
    }
}

/// A line ends with a line feed, before which a carriage return belongs to the
/// line end; the other lines follow.
pub proof fn law_first_line_ends_at_the_line_feed(line: Seq<char>, rest: Seq<char>)
    requires
        !line.contains('\n'),
    ensures
        line.len() == 0 || line.last() != '\r' ==> lines_of(line + seq!['\n'] + rest) == seq![line]
            + lines_of(rest),
        lines_of(line + seq!['\r', '\n'] + rest) == seq![line] + lines_of(rest),
{
    lemma_first_line(line, rest);
    let returned = line.push('\r');
    assert(line + seq!['\r', '\n'] + rest =~= returned + seq!['\n'] + rest);
    assert(!returned.contains('\n')) by {
        if returned.contains('\n') {
            let k = choose|k: int| 0 <= k < returned.len() && returned[k] == '\n';
            if k < line.len() {
                assert(line[k] == '\n');
            }
        }
    }
    lemma_first_line(returned, rest);
    assert(returned.drop_last() =~= line);
}

/// The first line, without its carriage return, comes before the lines of the
/// rest.
proof fn lemma_first_line(line: Seq<char>, rest: Seq<char>)
    requires
        !line.contains('\n'),
    ensures
        lines_of(line + seq!['\n'] + rest) == seq![without_return(line)] + lines_of(rest),
{
    let sep = Separator::One('\n');
    assert forall|i: int| 0 <= i < line.len() implies !sep.cuts(#[trigger] line[i]) by {
        assert(line.contains(line[i]));
    }
    law_uncut_text_is_one_piece(line, sep);
    law_pieces_of_two_parts(line, '\n', rest, sep);
    lemma_some_piece(rest, sep);
    let all = pieces(line + seq!['\n'] + rest, sep);
    let others = pieces(rest, sep);
    assert(all.drop_last() =~= seq![line] + others.drop_last());
    assert(all.last() == others.last());
    assert(all.drop_last().map_values(|l: Seq<char>| without_return(l)) =~= seq![
        without_return(line),
    ] + others.drop_last().map_values(|l: Seq<char>| without_return(l)));
    assert(lines_of(line + seq!['\n'] + rest) =~= seq![without_return(line)] + lines_of(rest));
}

/// What stands after the last line feed is a line as it is, unless it is empty.
pub proof fn law_last_line_needs_no_end(line: Seq<char>)
    requires
        !line.contains('\n'),
    ensures
        line.len() > 0 ==> lines_of(line) == seq![line],
        line.len() == 0 ==> lines_of(line).len() == 0,
{
    let sep = Separator::One('\n');
    assert forall|i: int| 0 <= i < line.len() implies !sep.cuts(#[trigger] line[i]) by {
        assert(line.contains(line[i]));
    }
    law_uncut_text_is_one_piece(line, sep);
    let parts = pieces(line, sep);
    assert(parts.drop_last().map_values(|l: Seq<char>| without_return(l)) =~= Seq::<
        Seq<char>,
    >::empty());
    if line.len() > 0 {
        assert(lines_of(line) =~= seq![line]);
    }
}

/// Each piece stands in the text, between two separators or an end of the text
/// and the next.
pub proof fn law_pieces_stand_between_separators(text: Seq<char>, sep: Separator, k: int)
    requires
        0 <= k < pieces(text, sep).len(),
    ensures
        exists|i: int|
            #[trigger] stands_between(text, sep, pieces(text, sep)[k], i) && (k == pieces(text, sep).len() - 1
                <==> i + pieces(text, sep)[k].len() == text.len()),
    decreases text.len(),
{
    let piece = pieces(text, sep)[k];
    if text.len() == 0 {
        assert(text.subrange(0, 0) =~= piece);
        assert(stands_between(text, sep, piece, 0));
    } else {
        let shorter = text.drop_last();
        let before = pieces(shorter, sep);
        lemma_some_piece(shorter, sep);
        if sep.cuts(text.last()) && k == before.len() {
            let i = text.len() as int;
            assert(text.subrange(i, i) =~= piece);
            assert(stands_between(text, sep, piece, i));
        } else {
            law_pieces_stand_between_separators(shorter, sep, k);
            let i = choose|i: int|
                #[trigger] stands_between(shorter, sep, before[k], i) && (k == before.len() - 1 <==> i
                    + before[k].len() == shorter.len());
            assert(shorter.subrange(i, i + before[k].len()) =~= text.subrange(
                i,
                i + before[k].len(),
            ));
            assert(text.subrange(i, i + piece.len()) =~= piece);
            assert(stands_between(text, sep, piece, i));
        }
    }
}

/// Whether a piece stands in a text at position `i`, with a separator or an end
/// of the text on either side.
pub open spec fn stands_between(
    text: Seq<char>,
    sep: Separator,
    piece: Seq<char>,
    i: int,
) -> bool {
    &&& 0 <= i <= text.len() - piece.len()
    &&& text.subrange(i, i + piece.len()) == piece
    &&& i > 0 ==> sep.cuts(text[i - 1])
    &&& i + piece.len() < text.len() ==> sep.cuts(text[i + piece.len()])
}

/// A text that is joined to others comes last, after one more separator; alone
/// it is as it is.
pub proof fn law_joining_appends(list: Seq<Seq<char>>, text: Seq<char>, sep: Seq<char>)
    ensures
        list.len() > 0 ==> joined(list.push(text), sep) == joined(list, sep) + sep + text,
        joined(seq![text], sep) == text,
        joined(Seq::empty(), sep).len() == 0,
{
    assert(list.push(text).drop_last() =~= list);
}

} // verus!
