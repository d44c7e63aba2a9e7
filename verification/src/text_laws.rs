//! What the text functions mean, character by character.

use crate::prompt::array_after;
use crate::prompt::array_body;
use crate::prompt::entries;
use crate::prompt::estimate;
use crate::prompt::is_object;
use crate::prompt::lists_at;
use crate::prompt::nesting;
use crate::prompt::own_list_at;
use crate::prompt::prompt_tokens;
use crate::prompt::FIELD;
use crate::prompt_laws::the_bracket_is_found;
use crate::prompt_laws::the_char_is_stripped;
use crate::prompt_laws::the_first_own_array_is_found;
use crate::text::blank;
use crate::text::count;
use crate::text::find_from;
use crate::text::find_from_is_first;
use crate::text::occurs_at;
use crate::text::strip_prefix;
use crate::text::trim_start;
use crate::text::white_space;
use vstd::prelude::*;
use vstd::utf8::encode_utf8;

verus! {

/// White space is these characters and no others.
pub proof fn white_space_is_listed(c: char)
    ensures
        white_space(c) <==> seq![
            '\u{9}', '\u{a}', '\u{b}', '\u{c}', '\u{d}', '\u{20}', '\u{85}', '\u{a0}', '\u{1680}',
            '\u{2000}', '\u{2001}', '\u{2002}', '\u{2003}', '\u{2004}', '\u{2005}', '\u{2006}',
            '\u{2007}', '\u{2008}', '\u{2009}', '\u{200a}', '\u{2028}', '\u{2029}', '\u{202f}',
            '\u{205f}', '\u{3000}',
        ].contains(c),
{
    let all = seq![
        '\u{9}', '\u{a}', '\u{b}', '\u{c}', '\u{d}', '\u{20}', '\u{85}', '\u{a0}', '\u{1680}',
        '\u{2000}', '\u{2001}', '\u{2002}', '\u{2003}', '\u{2004}', '\u{2005}', '\u{2006}',
        '\u{2007}', '\u{2008}', '\u{2009}', '\u{200a}', '\u{2028}', '\u{2029}', '\u{202f}',
        '\u{205f}', '\u{3000}',
    ];
    let code = c as u32;
    if white_space(c) {
        let k: int = if code <= 0xD {
            code - 0x9
        } else if code == 0x20 {
            5
        } else if code == 0x85 {
            6
        } else if code == 0xA0 {
            7
        } else if code == 0x1680 {
            8
        } else if code <= 0x200A {
            code - 0x2000 + 9
        } else if code == 0x2028 {
            20
        } else if code == 0x2029 {
            21
        } else if code == 0x202F {
            22
        } else if code == 0x205F {
            23
        } else {
            24
        };
        assert(all[k] == c);
    }
}

/// A text splits into the white space that it begins with and what
/// [`trim_start`] leaves, which begins with something else.
pub proof fn trim_start_takes_the_leading_white_space(s: Seq<char>) -> (gap: Seq<char>)
    ensures
        s == gap + trim_start(s),
        forall|i: int| 0 <= i < gap.len() ==> white_space(#[trigger] gap[i]),
        trim_start(s).len() > 0 ==> !white_space(trim_start(s)[0]),
    decreases s.len(),
{
    if s.len() > 0 && white_space(s[0]) {
        let rest = trim_start_takes_the_leading_white_space(s.skip(1));
        let gap = seq![s[0]] + rest;
        assert(s =~= seq![s[0]] + s.skip(1));
        assert(s =~= gap + trim_start(s));
        gap
    } else {
        let gap = Seq::<char>::empty();
        assert(s =~= gap + s);
        gap
    }
}

/// A text is blank if nothing but white space stands in it.
pub proof fn blank_is_nothing_but_white_space(s: Seq<char>)
    ensures
        blank(s) <==> forall|i: int| 0 <= i < s.len() ==> white_space(#[trigger] s[i]),
        blank(s) <==> trim_start(s).len() == 0,
{
    let gap = trim_start_takes_the_leading_white_space(s);
    let rest = trim_start(s);
    if rest.len() == 0 {
        assert(s =~= gap);
    } else {
        assert(s[gap.len() as int] == rest[0]);
    }
}

/// A prefix of one character is taken off exactly where it stands.
pub proof fn a_prefix_is_taken_off(s: Seq<char>, c: char, rest: Seq<char>)
    ensures
        strip_prefix(s, c) == Some(rest) <==> s == seq![c] + rest,
        strip_prefix(s, c) is None <==> s.len() == 0 || s[0] != c,
{
    if s.len() > 0 && s[0] == c {
        assert(s =~= seq![c] + s.skip(1));
    }
    assert((seq![c] + rest).skip(1) =~= rest);
}

/// A pattern occurs where its characters stand one after the other.
pub proof fn an_occurrence_is_char_by_char(s: Seq<char>, pattern: Seq<char>, i: int)
    ensures
        occurs_at(s, pattern, i) <==> {
            &&& 0 <= i
            &&& i + pattern.len() <= s.len()
            &&& forall|k: int| 0 <= k < pattern.len() ==> s[i + k] == #[trigger] pattern[k]
        },
{
    if 0 <= i && i + pattern.len() <= s.len() {
        let part = s.subrange(i, i + pattern.len());
        assert(forall|k: int| 0 <= k < pattern.len() ==> part[k] == s[i + k]);
        if forall|k: int| 0 <= k < pattern.len() ==> s[i + k] == #[trigger] pattern[k] {
            assert(part =~= pattern);
        }
    }
}

/// A character more is counted if it is the one.
pub proof fn each_char_counts_once(s: Seq<char>, last: char, c: char)
    ensures
        count(seq![], c) == 0,
        count(s.push(last), c) == count(s, c) + if last == c {
            1int
        } else {
            0
        },
{
    assert(s.push(last).drop_last() =~= s);
}

/// The field is the word `prompt_ids` in double quotes.
pub proof fn the_field_is_a_quoted_word()
    ensures
        FIELD@ == seq!['"', 'p', 'r', 'o', 'm', 'p', 't', '_', 'i', 'd', 's', '"'],
{
    reveal_strlit("\"prompt_ids\"");
    assert(FIELD@ =~= seq!['"', 'p', 'r', 'o', 'm', 'p', 't', '_', 'i', 'd', 's', '"']);
}

/// A colon and a bracketed body, with white space before and after the colon,
/// and no closing bracket in the body.
pub open spec fn is_array_value(
    rest: Seq<char>,
    gap: Seq<char>,
    pad: Seq<char>,
    body: Seq<char>,
    after: Seq<char>,
) -> bool {
    &&& rest == gap + (seq![':'] + (pad + (seq!['['] + (body + (seq![']'] + after)))))
    &&& forall|i: int| 0 <= i < gap.len() ==> white_space(#[trigger] gap[i])
    &&& forall|i: int| 0 <= i < pad.len() ==> white_space(#[trigger] pad[i])
    &&& forall|i: int| 0 <= i < body.len() ==> #[trigger] body[i] != ']'
}

/// What follows a field is an array with this body exactly where it is a colon
/// and the body in brackets, white space aside.
pub proof fn an_array_is_a_colon_and_brackets(text: Seq<char>, end: int, body: Seq<char>)
    requires
        0 <= end <= text.len(),
    ensures
        array_after(text, end) == Some(body) <==> exists|
            gap: Seq<char>,
            pad: Seq<char>,
            after: Seq<char>,
        |
            #[trigger] is_array_value(text.skip(end), gap, pad, body, after),
{
    let rest = text.skip(end);
    if array_after(text, end) == Some(body) {
        let gap = trim_start_takes_the_leading_white_space(rest);
        let colon = trim_start(rest);
        let value = colon.skip(1);
        assert(colon =~= seq![':'] + value);
        let pad = trim_start_takes_the_leading_white_space(value);
        let open = trim_start(value);
        let items = open.skip(1);
        assert(open =~= seq!['['] + items);
        find_from_is_first(items, seq![']'], 0);
        let close = find_from(items, seq![']'], 0)->0;
        assert(items.subrange(close, close + 1)[0] == ']');
        let after = items.skip(close + 1);
        assert(items =~= body + (seq![']'] + after));
        assert forall|i: int| 0 <= i < body.len() implies #[trigger] body[i] != ']' by {
            if body[i] == ']' {
                assert(items.subrange(i, i + 1) =~= seq![']']);
                assert(occurs_at(items, seq![']'], i));
            }
        }
        assert(is_array_value(rest, gap, pad, body, after));
    }
    if exists|gap: Seq<char>, pad: Seq<char>, after: Seq<char>| #[trigger]
        is_array_value(rest, gap, pad, body, after) {
        let (gap, pad, after) = choose|gap: Seq<char>, pad: Seq<char>, after: Seq<char>|
            #[trigger] is_array_value(rest, gap, pad, body, after);
        let items = body + (seq![']'] + after);
        the_char_is_stripped(gap, ':', pad + (seq!['['] + items));
        the_char_is_stripped(pad, '[', items);
        the_bracket_is_found(body, after);
    }
}

/// The first field of a text decides, where an array follows it.
pub proof fn the_first_field_decides(text: Seq<char>, i: int, body: Seq<char>)
    requires
        0 <= i,
        i + FIELD@.len() <= text.len(),
        forall|k: int| 0 <= k < FIELD@.len() ==> text[i + k] == #[trigger] FIELD@[k],
        forall|j: int| 0 <= j < i ==> !#[trigger] occurs_at(text, FIELD@, j),
        array_after(text, i + FIELD@.len()) == Some(body),
    ensures
        prompt_tokens(Some(text)) == Some(entries(body)),
{
    an_occurrence_is_char_by_char(text, FIELD@, i);
    find_from_is_first(text, FIELD@, 0);
}

/// Where no array follows the first field, or there is no field, the first of an
/// object's own fields with an array decides.
pub proof fn else_the_first_own_field_decides(text: Seq<char>, i: int, body: Seq<char>)
    requires
        forall|j: int|
            0 <= j && #[trigger] occurs_at(text, FIELD@, j) && (forall|k: int|
                0 <= k < j ==> !#[trigger] occurs_at(text, FIELD@, k)) ==> array_after(
                text,
                j + FIELD@.len(),
            ) is None,
        is_object(text),
        0 <= i,
        own_list_at(text, i),
        array_after(text, i + FIELD@.len()) == Some(body),
        forall|j: int| 0 <= j < i ==> !#[trigger] own_list_at(text, j),
    ensures
        prompt_tokens(Some(text)) == Some(entries(body)),
{
    find_from_is_first(text, FIELD@, 0);
    the_first_own_array_is_found(text, 0);
    let own = crate::prompt::own_array_from(text, 0);
    let k = choose|k: int|
        {
            &&& 0 <= k
            &&& #[trigger] own_list_at(text, k)
            &&& array_after(text, k + FIELD@.len()) == own
            &&& forall|j: int| 0 <= j < k ==> !own_list_at(text, j)
        };
    assert(k == i);
}

/// A count is given only where a field has an array, and that is the first field
/// of the text or an own field of an object. Without a text, there is none.
pub proof fn a_count_comes_from_a_field(text: Seq<char>)
    ensures
        prompt_tokens(None) is None,
        prompt_tokens(Some(text)) is Some ==> exists|i: int|
            {
                &&& 0 <= i
                &&& #[trigger] lists_at(text, i)
                &&& prompt_tokens(Some(text)) == Some(
                    entries(array_after(text, i + FIELD@.len())->0),
                )
                &&& (is_object(text) && own_list_at(text, i)) || forall|j: int|
                    0 <= j < i ==> !#[trigger] occurs_at(text, FIELD@, j)
            },
{
    find_from_is_first(text, FIELD@, 0);
    the_first_own_array_is_found(text, 0);
    if let Some(at) = find_from(text, FIELD@, 0) {
        if array_after(text, at + FIELD@.len()) is Some {
            assert(lists_at(text, at));
        }
    }
    if array_body(text) is Some && crate::prompt::first_array(text) is None {
        let own = crate::prompt::own_array_from(text, 0);
        let k = choose|k: int|
            {
                &&& 0 <= k
                &&& #[trigger] own_list_at(text, k)
                &&& array_after(text, k + FIELD@.len()) == own
                &&& forall|j: int| 0 <= j < k ==> !own_list_at(text, j)
            };
        assert(lists_at(text, k));
    }
}

/// A field with an array is the characters of the field and an array behind
/// them; it is an object's own one brace deep, outside strings.
pub proof fn a_field_lists_where_an_array_follows(text: Seq<char>, i: int)
    ensures
        lists_at(text, i) <==> {
            &&& 0 <= i
            &&& i + FIELD@.len() <= text.len()
            &&& forall|k: int| 0 <= k < FIELD@.len() ==> text[i + k] == #[trigger] FIELD@[k]
            &&& array_after(text, i + FIELD@.len()) is Some
        },
        own_list_at(text, i) <==> {
            &&& lists_at(text, i)
            &&& nesting(text, i).depth == 1
            &&& !nesting(text, i).quoted
            &&& !nesting(text, i).escaped
        },
{
    an_occurrence_is_char_by_char(text, FIELD@, i);
}

/// An object begins with an opening brace, white space aside.
pub proof fn an_object_begins_with_a_brace(text: Seq<char>)
    ensures
        is_object(text) <==> exists|i: int|
            {
                &&& 0 <= i < text.len()
                &&& #[trigger] text[i] == '{'
                &&& forall|j: int| 0 <= j < i ==> white_space(#[trigger] text[j])
            },
{
    let gap = trim_start_takes_the_leading_white_space(text);
    let rest = trim_start(text);
    let n = gap.len() as int;
    assert forall|j: int| 0 <= j < n implies white_space(#[trigger] text[j]) by {
        assert(text[j] == gap[j]);
    }
    if rest.len() > 0 {
        assert(text[n] == rest[0]);
    }
}

/// How the nesting of an index depends on the character before it: outside
/// strings, braces and brackets open and close a level and a quote begins a
/// string; inside, only a quote that no backslash escapes ends it.
pub proof fn nesting_goes_char_by_char(text: Seq<char>, i: int)
    requires
        0 <= i < text.len(),
    ensures
        nesting(text, 0).depth == 0 && !nesting(text, 0).quoted && !nesting(text, 0).escaped,
        ({
            let (before, after, c) = (nesting(text, i), nesting(text, i + 1), text[i]);
            &&& before.quoted ==> {
                &&& after.depth == before.depth
                &&& !after.quoted <==> c == '"' && !before.escaped
                &&& after.escaped <==> c == '\\' && !before.escaped
            }
            &&& !before.quoted ==> {
                &&& after.escaped == before.escaped
                &&& after.quoted <==> c == '"'
                &&& c == '{' || c == '[' ==> after.depth == before.depth + 1
                &&& c == '}' || c == ']' ==> after.depth == before.depth - 1
                &&& c != '{' && c != '[' && c != '}' && c != ']' ==> after.depth == before.depth
            }
        }),
{
}

/// Nothing but what stands before an index decides where it lies.
pub proof fn nesting_looks_back_only(text: Seq<char>, other: Seq<char>, i: int)
    requires
        0 <= i <= text.len(),
        i <= other.len(),
        forall|j: int| 0 <= j < i ==> text[j] == other[j],
    ensures
        nesting(text, i) == nesting(other, i),
    decreases i,
{
    if i > 0 {
        nesting_looks_back_only(text, other, i - 1);
    }
}

/// A body has an entry more than it has commas, and none if it is blank.
pub proof fn entries_are_one_more_than_commas(body: Seq<char>)
    ensures
        (forall|i: int| 0 <= i < body.len() ==> white_space(#[trigger] body[i])) ==> entries(body)
            == 0,
        (exists|i: int| 0 <= i < body.len() && !white_space(#[trigger] body[i])) ==> entries(body)
            == count(body, ',') + 1,
{
}

/// An estimate is a quarter of the bytes, rounded down, for texts of any length.
pub proof fn an_estimate_is_a_quarter_of_the_bytes(text: Seq<char>)
    ensures
        4 * estimate(Some(text)) <= encode_utf8(text).len() < 4 * estimate(Some(text)) + 4,
        estimate(None) == 0,
{
}

} // verus!
