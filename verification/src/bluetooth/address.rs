//! Device addresses in text.

use vstd::prelude::*;

use crate::split::{self, address_char, split, Separator};
use crate::text::{self, chars_of, to_ascii_uppercase};

verus! {

/// Number of characters of a device address.
pub const ADDRESS_LEN: usize = 17;

/// Whether a text is a device address: six pairs of hexadecimal digits with a
/// colon between any two neighbouring pairs.
pub open spec fn is_address(text: Seq<char>) -> bool {
    &&& text.len() == ADDRESS_LEN
    &&& forall|i: int|
        0 <= i < ADDRESS_LEN ==> if i % 3 == 2 {
            #[trigger] text[i] == ':'
        } else {
            split::is_hex_digit(text[i])
        }
}

/// Whether a text is a device address.
pub fn is_mac_address(value: &str) -> (ok: bool)
    ensures
        ok == is_address(value@),
{
    let chars = chars_of(value);
    if chars.len() != ADDRESS_LEN {
        return false;
    }
    for i in 0..ADDRESS_LEN
        invariant
            chars@ == value@,
            chars@.len() == ADDRESS_LEN,
            forall|j: int|
                0 <= j < i ==> if j % 3 == 2 {
                    #[trigger] chars@[j] == ':'
                } else {
                    split::is_hex_digit(chars@[j])
                },
    {
        let c = chars[i];
        let fits = if i % 3 == 2 {
            c == ':'
        } else {
            c != ':' && address_char(c)
        };
        if !fits {
            assert(value@[i as int] == c);
            return false;
        }
    }
    true
}

/// The first address among the tokens, in upper case.
pub open spec fn first_address(tokens: Seq<Seq<char>>) -> Option<Seq<char>>
    decreases tokens.len(),
{
    if tokens.len() == 0 {
        None
    } else if is_address(tokens.first()) {
        Some(text::uppercase(tokens.first()))
    } else {
        first_address(tokens.drop_first())
    }
}

/// The address that a text names, in upper case: the first address that stands
/// between characters that cannot belong to one.
pub open spec fn address_in(text: Seq<char>) -> Option<Seq<char>> {
    first_address(split::pieces(text, Separator::OutsideAddress))
}

/// The address that a text names, in upper case.
pub fn extract_mac_address(text: &str) -> (address: Option<String>)
    ensures
        text::opt_string(address) == address_in(text@),
{
    let tokens = split(text, Separator::OutsideAddress);
    let ghost all = split::views(tokens@);
    assert(all.skip(0) =~= all);
    for i in 0..tokens.len()
        invariant
            all == split::views(tokens@),
            address_in(text@) == first_address(all.skip(i as int)),
    {
        assert(all.skip(i as int).first() == tokens@[i as int]@);
        if is_mac_address(tokens[i].as_str()) {
            return Some(to_ascii_uppercase(tokens[i].as_str()));
        }
        assert(all.skip(i as int).drop_first() =~= all.skip(i + 1));
    }
    None
}

/// Whether a text falls into six pieces of two characters at its colons, and
/// holds nothing but hexadecimal digits besides.
pub open spec fn is_six_pairs(text: Seq<char>) -> bool {
    let parts = split::pieces(text, Separator::One(':'));
    &&& parts.len() == 6
    &&& forall|i: int| 0 <= i < 6 ==> (#[trigger] parts[i]).len() == 2
    &&& forall|k: int| 0 <= k < text.len() ==> split::is_address_char(#[trigger] text[k])
}

/// Six pairs of hexadecimal digits, joined by colons, are an address.
proof fn lemma_six_pairs_are_an_address(text: Seq<char>)
    requires
        is_six_pairs(text),
    ensures
        is_address(text),
{
    let parts = split::pieces(text, Separator::One(':'));
    let colon = seq![':'];
    split::law_joined_pieces_are_the_text(text, ':');
    reveal_with_fuel(split::joined, 7);
    let p1 = parts.drop_last();
    let p2 = p1.drop_last();
    let p3 = p2.drop_last();
    let p4 = p3.drop_last();
    let p5 = p4.drop_last();
    assert(p5.len() == 1 && p5.last() == parts[0]);
    assert(p4.last() == parts[1] && p3.last() == parts[2] && p2.last() == parts[3] && p1.last()
        == parts[4]);
    assert(text =~= parts[0] + colon + parts[1] + colon + parts[2] + colon + parts[3] + colon
        + parts[4] + colon + parts[5]);
    assert forall|i: int| 0 <= i < ADDRESS_LEN implies if i % 3 == 2 {
        #[trigger] text[i] == ':'
    } else {
        split::is_hex_digit(text[i])
    } by {
        if i % 3 != 2 {
            let part = i / 3;
            let at = i % 3;
            assert(text[i] == parts[part][at]);
            split::law_pieces_hold_no_separator(text, Separator::One(':'), part, at);
            assert(split::is_address_char(text[i]));
        }
    }
}

/// An address falls into six pairs at its colons.
proof fn lemma_address_is_six_pairs(text: Seq<char>)
    requires
        is_address(text),
    ensures
        is_six_pairs(text),
{
    assert forall|k: int| 0 <= k < text.len() implies split::is_address_char(
        #[trigger] text[k],
    ) by {
        assert(0 <= k < ADDRESS_LEN);
    }
    lemma_pair(text, 5);
    assert(text.take(17) =~= text);
}

/// The pieces of the first pairs of an address.
proof fn lemma_pair(text: Seq<char>, pair: int)
    requires
        is_address(text),
        0 <= pair < 6,
    ensures
        split::pieces(text.take(3 * pair + 2), Separator::One(':')).len() == pair + 1,
        forall|i: int|
            0 <= i <= pair ==> (#[trigger] split::pieces(
                text.take(3 * pair + 2),
                Separator::One(':'),
            )[i]).len() == 2,
    decreases pair,
{
    let sep = Separator::One(':');
    let from = 3 * pair;
    let before = split::pieces(text.take(from), sep);
    let one = split::pieces(text.take(from + 1), sep);
    assert(text.take(from + 2).drop_last() =~= text.take(from + 1));
    assert(text.take(from + 1).drop_last() =~= text.take(from));
    assert(text[from] != ':' && text[from + 1] != ':') by {
        assert(from % 3 == 0 && (from + 1) % 3 == 1);
        assert(split::is_hex_digit(text[from]));
        assert(split::is_hex_digit(text[from + 1]));
    }
    if pair == 0 {
        assert(text.take(0) =~= Seq::<char>::empty());
    } else {
        lemma_pair(text, pair - 1);
        assert((from - 1) % 3 == 2);
        assert(text[from - 1] == ':');
        assert(text.take(from).drop_last() =~= text.take(from - 1));
    }
}

/// The two ways of telling an address agree.
pub proof fn law_address_is_six_pairs(text: Seq<char>)
    ensures
        is_address(text) <==> is_six_pairs(text),
{
    if is_address(text) {
        lemma_address_is_six_pairs(text);
    }
    if is_six_pairs(text) {
        lemma_six_pairs_are_an_address(text);
    }
}

/// The first address among tokens is one, and is in upper case.
proof fn lemma_first_address(tokens: Seq<Seq<char>>)
    ensures
        first_address(tokens) matches Some(address) ==> is_address(address)
            && text::uppercase(address) == address,
    decreases tokens.len(),
{
    if tokens.len() > 0 {
        lemma_first_address(tokens.drop_first());
        let token = tokens.first();
        if is_address(token) {
            let address = text::uppercase(token);
            assert forall|i: int| 0 <= i < ADDRESS_LEN implies if i % 3 == 2 {
                #[trigger] address[i] == ':'
            } else {
                split::is_hex_digit(address[i])
            } by {
                assert(address[i] == text::upper(token[i]));
            }
            assert(text::uppercase(address) =~= address);
        }
    }
}

/// What is taken out of a text is an address, in upper case.
pub proof fn law_extracted_address_is_one(text: Seq<char>)
    ensures
        address_in(text) matches Some(address) ==> is_address(address) && text::uppercase(
            address,
        ) == address,
{
    lemma_first_address(split::pieces(text, Separator::OutsideAddress));
}

/// The first address of two lists is that of the first, or else that of the
/// second.
proof fn lemma_first_of_two_lists(a: Seq<Seq<char>>, b: Seq<Seq<char>>)
    ensures
        first_address(a + b) == (if first_address(a) is Some {
            first_address(a)
        } else {
            first_address(b)
        }),
    decreases a.len(),
{
    if a.len() == 0 {
        assert(a + b =~= b);
    } else {
        assert((a + b).first() == a.first());
        assert((a + b).drop_first() =~= a.drop_first() + b);
        lemma_first_of_two_lists(a.drop_first(), b);
    }
}

/// An address that stands alone, between characters that cannot belong to one or
/// the ends of the text, is taken out of the text, in upper case, where none
/// stands before it.
pub proof fn law_address_is_taken_out(before: Seq<char>, address: Seq<char>, after: Seq<char>)
    requires
        is_address(address),
        before.len() > 0 ==> !split::is_address_char(before.last()),
        after.len() > 0 ==> !split::is_address_char(after.first()),
        address_in(before) is None,
    ensures
        address_in(before + address + after) == Some(text::uppercase(address)),
{
    let sep = Separator::OutsideAddress;
    let none = Seq::<char>::empty();
    let tail = address + after;
    assert forall|i: int| 0 <= i < address.len() implies !sep.cuts(#[trigger] address[i]) by {
        assert(0 <= i < ADDRESS_LEN);
    }
    split::law_uncut_text_is_one_piece(address, sep);
    if after.len() > 0 {
        let d = after.first();
        split::law_pieces_of_two_parts(address, d, after.drop_first(), sep);
        assert(address + seq![d] + after.drop_first() =~= tail);
        assert((seq![address] + split::pieces(after.drop_first(), sep)).first() == address);
    } else {
        assert(tail =~= address);
    }
    assert(split::pieces(tail, sep).first() == address);
    assert(first_address(split::pieces(tail, sep)) == Some(text::uppercase(address)));
    if before.len() > 0 {
        let c = before.last();
        let front = before.drop_last();
        split::law_pieces_of_two_parts(front, c, tail, sep);
        assert(front + seq![c] + tail =~= before + address + after);
        split::law_pieces_of_two_parts(front, c, none, sep);
        assert(front + seq![c] + none =~= before);
        lemma_first_of_two_lists(split::pieces(front, sep), split::pieces(none, sep));
        lemma_first_of_two_lists(split::pieces(front, sep), split::pieces(tail, sep));
    } else {
        assert(before + address + after =~= tail);
    }
}

/// The first address among tokens is that of one of them.
proof fn lemma_first_address_is_a_token(tokens: Seq<Seq<char>>)
    ensures
        first_address(tokens) matches Some(found) ==> exists|k: int|
            0 <= k < tokens.len() && is_address(#[trigger] tokens[k]) && found == text::uppercase(
                tokens[k],
            ),
    decreases tokens.len(),
{
    if tokens.len() > 0 && first_address(tokens) is Some {
        if is_address(tokens.first()) {
            assert(is_address(tokens[0]));
        } else {
            let rest = tokens.drop_first();
            lemma_first_address_is_a_token(rest);
            let k = choose|k: int|
                0 <= k < rest.len() && is_address(#[trigger] rest[k]) && first_address(rest)->0
                    == text::uppercase(rest[k]);
            assert(tokens[k + 1] == rest[k]);
        }
    }
}

/// Only an address that stands alone in the text is ever taken out of it.
pub proof fn law_taken_address_stands_alone(text: Seq<char>)
    ensures
        address_in(text) matches Some(found) ==> exists|i: int|
            #![trigger text.subrange(i, i + 17)]
            {
                &&& 0 <= i <= text.len() - 17
                &&& is_address(text.subrange(i, i + 17))
                &&& found == text::uppercase(text.subrange(i, i + 17))
                &&& i > 0 ==> !split::is_address_char(text[i - 1])
                &&& i + 17 < text.len() ==> !split::is_address_char(text[i + 17])
            },
{
    let sep = Separator::OutsideAddress;
    let tokens = split::pieces(text, sep);
    if address_in(text) is Some {
        lemma_first_address_is_a_token(tokens);
        let k = choose|k: int|
            0 <= k < tokens.len() && is_address(#[trigger] tokens[k]) && address_in(text)->0
                == text::uppercase(tokens[k]);
        split::law_pieces_stand_between_separators(text, sep, k);
        let i = choose|i: int|
            #[trigger] split::stands_between(text, sep, tokens[k], i) && (k == tokens.len() - 1 <==> i
                + tokens[k].len() == text.len());
        assert(text.subrange(i, i + 17) == tokens[k]);
    }
}

} // verus!
