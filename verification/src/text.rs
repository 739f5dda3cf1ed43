//! Text primitives: searching, trimming, case folding and comparison.
//!
//! Text is specified as a sequence of characters, and positions count
//! characters.

use vstd::prelude::*;

verus! {

/// Appends one character to a string (`String::push`): the characters already
/// there stay, and the new one follows them.
pub assume_specification[ String::push ](s: &mut String, c: char)
    ensures
        final(s)@ == old(s)@.push(c),
;

/// The characters of a string slice, in order.
pub fn chars_of(s: &str) -> (v: Vec<char>)
    ensures
        v@ == s@,
{
    let mut v: Vec<char> = Vec::new();
    for c in it: s.chars()
        invariant
            v@ == it.seq().take(it.index() as int),
            it.seq() == s@,
    {
        v.push(c);
    }
    v
}

/// Whether two character slices hold the same characters.
pub fn same_chars(a: &[char], b: &[char]) -> (same: bool)
    ensures
        same == (a@ == b@),
{
    if a.len() != b.len() {
        return false;
    }
    for i in 0..a.len()
        invariant
            a@.len() == b@.len(),
            a@.take(i as int) == b@.take(i as int),
    {
        if a[i] != b[i] {
            assert(a@[i as int] != b@[i as int]);
            return false;
        }
        assert(a@.take(i + 1) == a@.take(i as int).push(a@[i as int]));
        assert(b@.take(i + 1) == b@.take(i as int).push(b@[i as int]));
    }
    assert(a@.take(a@.len() as int) == a@);
    assert(b@.take(b@.len() as int) == b@);
    true
}

/// Whether two texts are equal.
pub fn same_text(a: &str, b: &str) -> (same: bool)
    ensures
        same == (a@ == b@),
{
    let a = chars_of(a);
    let b = chars_of(b);
    same_chars(&a, &b)
}

/// Whether `part` stands in `text` at position `i`.
pub open spec fn occurs_at(text: Seq<char>, part: Seq<char>, i: int) -> bool {
    0 <= i && i + part.len() <= text.len() && text.subrange(i, i + part.len()) == part
}

/// Whether `part` stands anywhere in `text`.
pub open spec fn occurs(text: Seq<char>, part: Seq<char>) -> bool {
    exists|i: int| occurs_at(text, part, i)
}

/// Whether `i` is the first position at which `part` stands in `text`.
pub open spec fn first_at(text: Seq<char>, part: Seq<char>, i: int) -> bool {
    occurs_at(text, part, i) && forall|j: int| 0 <= j < i ==> !occurs_at(text, part, j)
}

/// The first position at which `part` stands in `text`.
pub open spec fn position(text: Seq<char>, part: Seq<char>) -> Option<int> {
    if occurs(text, part) {
        Some(choose|i: int| first_at(text, part, i))
    } else {
        None
    }
}

/// The first position is the only one that [`first_at`] admits.
pub proof fn lemma_position(text: Seq<char>, part: Seq<char>, i: int)
    requires
        first_at(text, part, i),
    ensures
        position(text, part) == Some(i),
{
    let k = choose|k: int| first_at(text, part, k);
    if k < i {
        assert(!occurs_at(text, part, k));
    } else if i < k {
        assert(!occurs_at(text, part, i));
    }
}

/// Whether `part` stands in `text` at position `i`.
fn stands_at(text: &[char], part: &[char], i: usize) -> (found: bool)
    requires
        i + part@.len() <= text@.len(),
    ensures
        found == occurs_at(text@, part@, i as int),
{
    let end: usize = text.len();
    for k in 0..part.len()
        invariant
            i + part@.len() <= text@.len() == end,
            forall|j: int| 0 <= j < k ==> text@[i + j] == part@[j],
    {
        if text[i + k] != part[k] {
            assert(text@.subrange(i as int, i + part@.len())[k as int] != part@[k as int]);
            return false;
        }
    }
    assert(text@.subrange(i as int, i + part@.len()) =~= part@);
    true
}

/// The first position at which `part` stands in `text`.
pub fn find_chars(text: &[char], part: &[char]) -> (at: Option<usize>)
    ensures
        match at {
            Some(i) => position(text@, part@) == Some(i as int) && first_at(
                text@,
                part@,
                i as int,
            ),
            None => position(text@, part@) is None && !occurs(text@, part@),
        },
{
    if part.len() > text.len() {
        assert(forall|j: int| !occurs_at(text@, part@, j));
        return None;
    }
    let last: usize = text.len() - part.len();
    let mut i: usize = 0;
    loop
        invariant
            last == text@.len() - part@.len(),
            i <= last,
            forall|j: int| 0 <= j < i ==> !occurs_at(text@, part@, j),
        decreases last - i,
    {
        if stands_at(text, part, i) {
            proof {
                lemma_position(text@, part@, i as int);
            }
            return Some(i);
        }
        if i == last {
            assert(forall|j: int| !occurs_at(text@, part@, j));
            return None;
        }
        i = i + 1;
    }
}

/// The first position at which `part` stands in `text`.
pub fn find(text: &str, part: &str) -> (at: Option<usize>)
    ensures
        match at {
            Some(i) => position(text@, part@) == Some(i as int) && first_at(
                text@,
                part@,
                i as int,
            ),
            None => position(text@, part@) is None && !occurs(text@, part@),
        },
{
    let text = chars_of(text);
    let part = chars_of(part);
    find_chars(&text, &part)
}

/// Whether `part` stands anywhere in `text`.
pub fn contains(text: &str, part: &str) -> (found: bool)
    ensures
        found == occurs(text@, part@),
{
    find(text, part).is_some()
}

/// Whether `text` begins with `prefix`.
pub open spec fn begins_with(text: Seq<char>, prefix: Seq<char>) -> bool {
    occurs_at(text, prefix, 0)
}

/// Whether `text` begins with `prefix`.
pub fn starts_with(text: &str, prefix: &str) -> (found: bool)
    ensures
        found == begins_with(text@, prefix@),
{
    let text = chars_of(text);
    let prefix = chars_of(prefix);
    prefix.len() <= text.len() && stands_at(&text, &prefix, 0)
}

/// What follows `prefix` in `text`, if `text` begins with it.
pub open spec fn without_prefix(text: Seq<char>, prefix: Seq<char>) -> Option<Seq<char>> {
    if begins_with(text, prefix) {
        Some(text.skip(prefix.len() as int))
    } else {
        None
    }
}

/// The characters of an optional text.
pub open spec fn opt_view(text: Option<&str>) -> Option<Seq<char>> {
    match text {
        Some(t) => Some(t@),
        None => None,
    }
}

/// The characters of an optional string.
pub open spec fn opt_string(text: Option<String>) -> Option<Seq<char>> {
    match text {
        Some(t) => Some(t@),
        None => None,
    }
}

/// What follows `prefix` in `text`, if `text` begins with it.
pub fn strip_prefix<'a>(text: &'a str, prefix: &str) -> (rest: Option<&'a str>)
    ensures
        opt_view(rest) == without_prefix(text@, prefix@),
{
    if starts_with(text, prefix) {
        let rest = text.substring_char(prefix.unicode_len(), text.unicode_len());
        assert(rest@ =~= text@.skip(prefix@.len() as int));
        Some(rest)
    } else {
        None
    }
}

/// Whether a character is white space (the Unicode property `White_Space`).
pub open spec fn is_space(c: char) -> bool {
    ||| '\u{9}' <= c <= '\u{d}'
    ||| c == ' '
    ||| c == '\u{85}'
    ||| c == '\u{a0}'
    ||| c == '\u{1680}'
    ||| '\u{2000}' <= c <= '\u{200a}'
    ||| c == '\u{2028}'
    ||| c == '\u{2029}'
    ||| c == '\u{202f}'
    ||| c == '\u{205f}'
    ||| c == '\u{3000}'
}

/// Whether a character is white space.
pub fn is_whitespace(c: char) -> (space: bool)
    ensures
        space == is_space(c),
{
    ('\u{9}' <= c && c <= '\u{d}') || c == ' ' || c == '\u{85}' || c == '\u{a0}' || c == '\u{1680}'
        || ('\u{2000}' <= c && c <= '\u{200a}') || c == '\u{2028}' || c == '\u{2029}' || c
        == '\u{202f}' || c == '\u{205f}' || c == '\u{3000}'
}

/// A text without its leading white space.
pub open spec fn trimmed_start(text: Seq<char>) -> Seq<char>
    decreases text.len(),
{
    if text.len() > 0 && is_space(text.first()) {
        trimmed_start(text.drop_first())
    } else {
        text
    }
}

/// A text without its trailing white space.
pub open spec fn trimmed_end(text: Seq<char>) -> Seq<char>
    decreases text.len(),
{
    if text.len() > 0 && is_space(text.last()) {
        trimmed_end(text.drop_last())
    } else {
        text
    }
}

/// A text without its leading and trailing white space.
pub open spec fn trimmed(text: Seq<char>) -> Seq<char> {
    trimmed_end(trimmed_start(text))
}

/// The number of leading white space characters.
fn leading_spaces(text: &[char]) -> (count: usize)
    ensures
        count <= text@.len(),
        trimmed_start(text@) == text@.skip(count as int),
{
    let mut i: usize = 0;
    assert(text@.skip(0) =~= text@);
    while i < text.len() && is_whitespace(text[i])
        invariant
            i <= text@.len(),
            trimmed_start(text@) == trimmed_start(text@.skip(i as int)),
        decreases text@.len() - i,
    {
        assert(text@.skip(i as int).drop_first() =~= text@.skip(i + 1));
        i = i + 1;
    }
    i
}

/// A text without its leading white space.
pub fn trim_start(text: &str) -> (rest: &str)
    ensures
        rest@ == trimmed_start(text@),
{
    let chars = chars_of(text);
    let from = leading_spaces(&chars);
    let rest = text.substring_char(from, chars.len());
    assert(rest@ =~= text@.skip(from as int));
    rest
}

/// A text without its leading and trailing white space.
pub fn trim(text: &str) -> (rest: &str)
    ensures
        rest@ == trimmed(text@),
{
    let chars = chars_of(text);
    let from = leading_spaces(&chars);
    let mut to: usize = chars.len();
    assert(chars@.subrange(from as int, to as int) =~= trimmed_start(text@));
    while from < to && is_whitespace(chars[to - 1])
        invariant
            from <= to <= chars@.len(),
            chars@ == text@,
            trimmed(text@) == trimmed_end(chars@.subrange(from as int, to as int)),
        decreases to,
    {
        assert(chars@.subrange(from as int, to as int).drop_last() =~= chars@.subrange(
            from as int,
            to - 1,
        ));
        to = to - 1;
    }
    text.substring_char(from, to)
}

/// The lower-case form of an ASCII letter; any other character itself.
pub open spec fn lower(c: char) -> char {
    if 'A' <= c <= 'Z' {
        (c as u32 + 32) as char
    } else {
        c
    }
}

/// The upper-case form of an ASCII letter; any other character itself.
pub open spec fn upper(c: char) -> char {
    if 'a' <= c <= 'z' {
        (c as u32 - 32) as char
    } else {
        c
    }
}

/// A text with its ASCII letters in lower case.
pub open spec fn lowercase(text: Seq<char>) -> Seq<char> {
    text.map_values(|c: char| lower(c))
}

/// A text with its ASCII letters in upper case.
pub open spec fn uppercase(text: Seq<char>) -> Seq<char> {
    text.map_values(|c: char| upper(c))
}

/// The lower-case form of a character.
fn lower_char(c: char) -> (l: char)
    ensures
        l == lower(c),
{
    if 'A' <= c && c <= 'Z' {
        (c as u8 + 32) as char
    } else {
        c
    }
}

/// The upper-case form of a character.
fn upper_char(c: char) -> (u: char)
    ensures
        u == upper(c),
{
    if 'a' <= c && c <= 'z' {
        (c as u8 - 32) as char
    } else {
        c
    }
}

/// A text with its ASCII letters in lower case.
pub fn to_ascii_lowercase(text: &str) -> (low: String)
    ensures
        low@ == lowercase(text@),
{
    let chars = chars_of(text);
    let mut low = String::new();
    for i in 0..chars.len()
        invariant
            chars@ == text@,
            low@ =~= lowercase(text@).take(i as int),
    {
        low.push(lower_char(chars[i]));
    }
    assert(lowercase(text@).take(text@.len() as int) =~= lowercase(text@));
    low
}

/// A text with its ASCII letters in upper case.
pub fn to_ascii_uppercase(text: &str) -> (up: String)
    ensures
        up@ == uppercase(text@),
{
    let chars = chars_of(text);
    let mut up = String::new();
    for i in 0..chars.len()
        invariant
            chars@ == text@,
            up@ =~= uppercase(text@).take(i as int),
    {
        up.push(upper_char(chars[i]));
    }
    assert(uppercase(text@).take(text@.len() as int) =~= uppercase(text@));
    up
}

/// Whether a text is nothing but white space.
pub open spec fn is_blank(text: Seq<char>) -> bool {
    forall|i: int| 0 <= i < text.len() ==> is_space(#[trigger] text[i])
}

/// White space before a text does not outlast the trimming of its start.
proof fn lemma_blank_start(blank: Seq<char>, text: Seq<char>)
    requires
        is_blank(blank),
    ensures
        trimmed_start(blank + text) == trimmed_start(text),
    decreases blank.len(),
{
    if blank.len() == 0 {
        assert(blank + text =~= text);
    } else {
        assert(is_space(blank[0]));
        assert((blank + text).drop_first() =~= blank.drop_first() + text);
        lemma_blank_start(blank.drop_first(), text);
    }
}

/// White space after a text does not outlast the trimming of its end.
proof fn lemma_blank_end(text: Seq<char>, blank: Seq<char>)
    requires
        is_blank(blank),
    ensures
        trimmed_end(text + blank) == trimmed_end(text),
    decreases blank.len(),
{
    if blank.len() == 0 {
        assert(text + blank =~= text);
    } else {
        assert(is_space(blank[blank.len() - 1]));
        assert((text + blank).drop_last() =~= text + blank.drop_last());
        lemma_blank_end(text, blank.drop_last());
    }
}

/// Trimming the start of a text leaves what follows it, unless nothing else is
/// left.
proof fn lemma_start_of_longer(text: Seq<char>, blank: Seq<char>)
    requires
        is_blank(blank),
    ensures
        trimmed_end(trimmed_start(text + blank)) == trimmed_end(trimmed_start(text)),
    decreases text.len(),
{
    if text.len() > 0 && is_space(text.first()) {
        assert((text + blank).drop_first() =~= text.drop_first() + blank);
        lemma_start_of_longer(text.drop_first(), blank);
    } else if text.len() > 0 {
        assert((text + blank).first() == text.first());
        lemma_blank_end(text, blank);
    } else {
        assert(text + blank =~= blank + text);
        lemma_blank_start(blank, text);
    }
}

/// White space around a text does not change what is left when it is trimmed.
pub proof fn law_trimming_ignores_surrounding_space(
    before: Seq<char>,
    text: Seq<char>,
    after: Seq<char>,
)
    requires
        is_blank(before),
        is_blank(after),
    ensures
        trimmed(before + text + after) == trimmed(text),
{
    assert(before + text + after =~= before + (text + after));
    lemma_blank_start(before, text + after);
    lemma_start_of_longer(text, after);
}

/// A part of a part is a part.
pub proof fn law_parts_of_parts_occur(text: Seq<char>, part: Seq<char>, smaller: Seq<char>)
    requires
        occurs(text, part),
        occurs(part, smaller),
    ensures
        occurs(text, smaller),
{
    let i = choose|i: int| occurs_at(text, part, i);
    let j = choose|j: int| occurs_at(part, smaller, j);
    assert(text.subrange(i + j, i + j + smaller.len()) =~= part.subrange(j, j + smaller.len()));
    assert(occurs_at(text, smaller, i + j));
}

/// What is part of a text is, in lower case, part of it in lower case.
pub proof fn law_parts_occur_in_lower_case(text: Seq<char>, part: Seq<char>)
    requires
        occurs(text, part),
    ensures
        occurs(lowercase(text), lowercase(part)),
{
    let i = choose|i: int| occurs_at(text, part, i);
    assert(lowercase(text).subrange(i, i + part.len()) =~= lowercase(
        text.subrange(i, i + part.len()),
    ));
    assert(occurs_at(lowercase(text), lowercase(part), i));
}

/// A text that is put together of three has the middle one as a part.
pub proof fn law_middle_is_a_part(before: Seq<char>, part: Seq<char>, after: Seq<char>)
    ensures
        occurs(before + part + after, part),
{
    let text = before + part + after;
    assert(text.subrange(before.len() as int, (before.len() + part.len()) as int) =~= part);
    assert(occurs_at(text, part, before.len() as int));
}

/// What is a part of a text stands in it with all its characters, in order and
/// without a gap; and nothing else is a part.
pub proof fn law_parts_stand_in_the_text(text: Seq<char>, part: Seq<char>)
    ensures
        occurs(text, part) <==> exists|i: int|
            0 <= i <= text.len() - part.len() && #[trigger] text.skip(i).take(part.len() as int)
                == part,
{
    if occurs(text, part) {
        let i = choose|i: int| occurs_at(text, part, i);
        assert(text.skip(i).take(part.len() as int) =~= text.subrange(i, i + part.len()));
    }
    if exists|i: int|
        0 <= i <= text.len() - part.len() && #[trigger] text.skip(i).take(part.len() as int)
            == part {
        let i = choose|i: int|
            0 <= i <= text.len() - part.len() && #[trigger] text.skip(i).take(part.len() as int)
                == part;
        assert(text.skip(i).take(part.len() as int) =~= text.subrange(i, i + part.len()));
        assert(occurs_at(text, part, i));
    }
}

/// There is a first position wherever there is any.
pub proof fn lemma_first_exists(text: Seq<char>, part: Seq<char>, i: int)
    requires
        occurs_at(text, part, i),
    ensures
        exists|k: int| first_at(text, part, k),
    decreases i,
{
    if exists|j: int| 0 <= j < i && occurs_at(text, part, j) {
        let j = choose|j: int| 0 <= j < i && occurs_at(text, part, j);
        lemma_first_exists(text, part, j);
    } else {
        assert(first_at(text, part, i));
    }
}

/// The position of a part is where it stands for the first time, and there is
/// one exactly if the part stands anywhere.
pub proof fn law_position_is_the_first(text: Seq<char>, part: Seq<char>)
    ensures
        position(text, part) is Some <==> occurs(text, part),
        position(text, part) matches Some(i) ==> {
            &&& 0 <= i <= text.len() - part.len()
            &&& text.skip(i).take(part.len() as int) == part
            &&& forall|j: int|
                0 <= j < i ==> #[trigger] text.skip(j).take(part.len() as int) != part
        },
{
    if occurs(text, part) {
        let any = choose|i: int| occurs_at(text, part, i);
        lemma_first_exists(text, part, any);
        let i = choose|i: int| first_at(text, part, i);
        lemma_position(text, part, i);
        assert(text.skip(i).take(part.len() as int) =~= text.subrange(i, i + part.len()));
        assert forall|j: int| 0 <= j < i implies #[trigger] text.skip(j).take(part.len() as int)
            != part by {
            assert(!occurs_at(text, part, j));
            assert(text.skip(j).take(part.len() as int) =~= text.subrange(j, j + part.len()));
        }
    }
}

/// A text begins with whatever was put before its rest, and what follows that
/// is the rest.
pub proof fn law_prefix_is_taken_off(prefix: Seq<char>, rest: Seq<char>)
    ensures
        begins_with(prefix + rest, prefix),
        without_prefix(prefix + rest, prefix) == Some(rest),
{
    let text = prefix + rest;
    assert(text.subrange(0, prefix.len() as int) =~= prefix);
    assert(text.skip(prefix.len() as int) =~= rest);
}

/// A text that begins with a prefix is the prefix and a rest.
pub proof fn law_text_with_prefix_is_prefix_and_rest(text: Seq<char>, prefix: Seq<char>)
    ensures
        begins_with(text, prefix) <==> without_prefix(text, prefix) is Some,
        without_prefix(text, prefix) matches Some(rest) ==> text == prefix + rest,
{
    if begins_with(text, prefix) {
        assert(text =~= text.subrange(0, prefix.len() as int) + text.skip(prefix.len() as int));
    }
}

/// Trimming the start takes white space off, and all of it.
pub proof fn law_trimmed_start_has_lost_its_space(text: Seq<char>)
    ensures
        exists|i: int|
            #![trigger text.take(i)]
            0 <= i <= text.len() && is_blank(text.take(i)) && trimmed_start(text) == text.skip(i),
        trimmed_start(text).len() > 0 ==> !is_space(trimmed_start(text).first()),
    decreases text.len(),
{
    if text.len() > 0 && is_space(text.first()) {
        let rest = text.drop_first();
        law_trimmed_start_has_lost_its_space(rest);
        let i = choose|i: int|
            #![trigger rest.take(i)]
            0 <= i <= rest.len() && is_blank(rest.take(i)) && trimmed_start(rest) == rest.skip(i);
        assert forall|k: int| 0 <= k < text.take(i + 1).len() implies is_space(
            #[trigger] text.take(i + 1)[k],
        ) by {
            if k > 0 {
                assert(is_space(rest.take(i)[k - 1]));
            }
        }
        assert(rest.skip(i) =~= text.skip(i + 1));
        assert(is_blank(text.take(i + 1)) && trimmed_start(text) == text.skip(i + 1));
    } else {
        assert(text.skip(0) =~= text);
        assert(is_blank(text.take(0)));
    }
}

/// Trimming the end takes white space off, and all of it.
proof fn lemma_trimmed_end(text: Seq<char>)
    ensures
        exists|i: int|
            #![trigger text.take(i)]
            0 <= i <= text.len() && is_blank(text.skip(i)) && trimmed_end(text) == text.take(i),
        trimmed_end(text).len() > 0 ==> !is_space(trimmed_end(text).last()),
    decreases text.len(),
{
    if text.len() > 0 && is_space(text.last()) {
        let rest = text.drop_last();
        lemma_trimmed_end(rest);
        let i = choose|i: int|
            #![trigger rest.take(i)]
            0 <= i <= rest.len() && is_blank(rest.skip(i)) && trimmed_end(rest) == rest.take(i);
        assert forall|k: int| 0 <= k < text.skip(i).len() implies is_space(
            #[trigger] text.skip(i)[k],
        ) by {
            if k < rest.skip(i).len() {
                assert(is_space(rest.skip(i)[k]));
            }
        }
        assert(rest.take(i) =~= text.take(i));
    } else {
        assert(text.take(text.len() as int) =~= text);
        assert(is_blank(text.skip(text.len() as int)));
    }
}

/// Trimming takes white space off both ends, and all of it: what is left
/// neither begins nor ends with white space, and only white space was lost.
pub proof fn law_trimmed_has_lost_its_space(text: Seq<char>)
    ensures
        exists|i: int, j: int|
            #![trigger text.take(i), text.skip(j)]
            0 <= i <= j <= text.len() && is_blank(text.take(i)) && is_blank(text.skip(j))
                && trimmed(text) == text.subrange(i, j),
        trimmed(text).len() > 0 ==> !is_space(trimmed(text).first()) && !is_space(
            trimmed(text).last(),
        ),
{
    law_trimmed_start_has_lost_its_space(text);
    let i = choose|i: int|
        #![trigger text.take(i)]
        0 <= i <= text.len() && is_blank(text.take(i)) && trimmed_start(text) == text.skip(i);
    let rest = text.skip(i);
    lemma_trimmed_end(rest);
    let k = choose|k: int|
        #![trigger rest.take(k)]
        0 <= k <= rest.len() && is_blank(rest.skip(k)) && trimmed_end(rest) == rest.take(k);
    assert(rest.skip(k) =~= text.skip(i + k));
    assert(rest.take(k) =~= text.subrange(i, i + k));
    assert(is_blank(text.take(i)) && is_blank(text.skip(i + k)));
    if trimmed(text).len() > 0 {
        assert(trimmed(text).first() == rest.first());
    }
}

/// Exactly the 26 capital letters have a lower-case form of their own, at the
/// same place in the alphabet; and the other way round.
pub proof fn law_letters_keep_their_place(c: char)
    ensures
        'A' <= c <= 'Z' ==> 'a' <= lower(c) <= 'z' && lower(c) as int - 'a' as int == c as int
            - 'A' as int,
        !('A' <= c <= 'Z') ==> lower(c) == c,
        'a' <= c <= 'z' ==> 'A' <= upper(c) <= 'Z' && upper(c) as int - 'A' as int == c as int
            - 'a' as int,
        !('a' <= c <= 'z') ==> upper(c) == c,
{
}

/// The case of a text is changed character by character.
pub proof fn law_case_is_changed_by_character(a: Seq<char>, b: Seq<char>, c: char)
    ensures
        lowercase(a + b) == lowercase(a) + lowercase(b),
        uppercase(a + b) == uppercase(a) + uppercase(b),
        lowercase(seq![c]) == seq![lower(c)],
        uppercase(seq![c]) == seq![upper(c)],
        lowercase(uppercase(a)) == lowercase(a),
        uppercase(lowercase(a)) == uppercase(a),
{
    assert(lowercase(a + b) =~= lowercase(a) + lowercase(b));
    assert(uppercase(a + b) =~= uppercase(a) + uppercase(b));
    assert(lowercase(seq![c]) =~= seq![lower(c)]);
    assert(uppercase(seq![c]) =~= seq![upper(c)]);
    assert(lowercase(uppercase(a)) =~= lowercase(a));
    assert(uppercase(lowercase(a)) =~= uppercase(a));
}

/// A text that neither begins nor ends with white space is trimmed already.
pub proof fn law_solid_ends_are_trimmed_already(text: Seq<char>)
    requires
        text.len() > 0,
        !is_space(text.first()),
        !is_space(text.last()),
    ensures
        trimmed(text) == text,
        trimmed_start(text) == text,
{
}

/// White space before a text is all that trimming its start takes off, where
/// the text itself begins with something else.
pub proof fn law_leading_space_is_taken_off(blank: Seq<char>, text: Seq<char>)
    requires
        is_blank(blank),
        text.len() > 0,
        !is_space(text.first()),
    ensures
        trimmed_start(blank + text) == text,
{
    lemma_blank_start(blank, text);
}

} // verus!
