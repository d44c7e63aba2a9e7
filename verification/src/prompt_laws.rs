//! What a count of listed token ids means.

use crate::prompt::array_after;
use crate::prompt::array_body;
use crate::prompt::first_array;
use crate::prompt::is_object;
use crate::prompt::lists_at;
use crate::prompt::own_array_from;
use crate::prompt::own_list_at;
use crate::prompt::prompt_tokens;
use crate::prompt::FIELD;
use crate::text::blank;
use crate::text::count;
use crate::text::find_from;
use crate::text::find_from_is_first;
use crate::text::occurs_at;
use crate::text::strip_prefix;
use crate::text::trim_start;
use crate::text::white_space;
use vstd::prelude::*;

verus! {

/// The items, with a comma between any two.
pub open spec fn join(items: Seq<Seq<char>>) -> Seq<char>
    decreases items.len(),
{
    if items.len() == 0 {
        seq![]
    } else if items.len() == 1 {
        items[0]
    } else {
        join(items.drop_last()) + seq![','] + items.last()
    }
}

/// A request text that lists `body` as its token ids, with `gap` before and
/// `pad` after the colon.
pub open spec fn listing(
    before: Seq<char>,
    gap: Seq<char>,
    pad: Seq<char>,
    body: Seq<char>,
    after: Seq<char>,
) -> Seq<char> {
    before + FIELD@ + (gap + (seq![':'] + (pad + (seq!['['] + (body + (seq![']'] + after))))))
}

proof fn trim_start_drops_blanks(gap: Seq<char>, rest: Seq<char>)
    requires
        blank(gap),
        rest.len() > 0,
        !white_space(rest[0]),
    ensures
        trim_start(gap + rest) == rest,
    decreases gap.len(),
{
    if gap.len() == 0 {
        assert(gap + rest =~= rest);
    } else {
        assert((gap + rest)[0] == gap[0]);
        assert((gap + rest).skip(1) =~= gap.skip(1) + rest);
        assert forall|i: int| 0 <= i < gap.skip(1).len() implies white_space(
            #[trigger] gap.skip(1)[i],
        ) by {
            assert(gap.skip(1)[i] == gap[i + 1]);
        }
        trim_start_drops_blanks(gap.skip(1), rest);
    }
}

proof fn count_of_sum(a: Seq<char>, b: Seq<char>, c: char)
    ensures
        count(a + b, c) == count(a, c) + count(b, c),
    decreases b.len(),
{
    if b.len() == 0 {
        assert(a + b =~= a);
    } else {
        assert((a + b).drop_last() =~= a + b.drop_last());
        assert((a + b).last() == b.last());
        count_of_sum(a, b.drop_last(), c);
    }
}

proof fn count_of_absent(s: Seq<char>, c: char)
    requires
        !s.contains(c),
    ensures
        count(s, c) == 0,
    decreases s.len(),
{
    if s.len() > 0 {
        assert(s.contains(s.last()));
        assert forall|i: int| 0 <= i < s.drop_last().len() implies s.drop_last()[i] != c by {
            assert(s.contains(s[i]));
        }
        count_of_absent(s.drop_last(), c);
    }
}

proof fn commas_of_join(items: Seq<Seq<char>>)
    requires
        items.len() > 0,
        forall|i: int| 0 <= i < items.len() ==> !(#[trigger] items[i]).contains(','),
    ensures
        count(join(items), ',') + 1 == items.len(),
    decreases items.len(),
{
    count_of_absent(items.last(), ',');
    if items.len() > 1 {
        let first = items.drop_last();
        commas_of_join(first);
        assert(seq![','].drop_last() =~= seq![]);
        assert(count(seq![','], ',') == 1) by {
            reveal_with_fuel(count, 2);
        }
        count_of_sum(join(first), seq![','], ',');
        count_of_sum(join(first) + seq![','], items.last(), ',');
    }
}

/// Whether the `"prompt_ids"` at index `n` is the one whose array is read: the
/// first of the text, or, where no array follows that, the first of the
/// outermost object that an array follows.
pub open spec fn is_read(text: Seq<char>, n: int) -> bool {
    ||| find_from(text, FIELD@, 0) == Some(n)
    ||| {
        &&& first_array(text) is None
        &&& is_object(text)
        &&& own_list_at(text, n)
        &&& forall|i: int| 0 <= i < n ==> !own_list_at(text, i)
    }
}

/// Among the fields of the outermost object, the first with an array is found;
/// none is found only where none has one.
pub proof fn the_first_own_array_is_found(text: Seq<char>, from: int)
    requires
        0 <= from,
    ensures
        match own_array_from(text, from) {
            Some(body) => exists|i: int|
                {
                    &&& from <= i
                    &&& #[trigger] own_list_at(text, i)
                    &&& array_after(text, i + FIELD@.len()) == Some(body)
                    &&& forall|j: int| from <= j < i ==> !own_list_at(text, j)
                },
            None => forall|j: int| from <= j ==> !own_list_at(text, j),
        },
    decreases text.len() - from + 1,
{
    if from + FIELD@.len() <= text.len() && !own_list_at(text, from) {
        the_first_own_array_is_found(text, from + 1);
    }
}

/// An object that has a `prompt_ids` array of its own is counted, whatever
/// strings and inner objects stand before it.
pub proof fn an_own_array_is_counted(text: Seq<char>, i: int)
    requires
        is_object(text),
        0 <= i,
        own_list_at(text, i),
    ensures
        prompt_tokens(Some(text)) is Some,
{
    the_first_own_array_is_found(text, 0);
}

proof fn the_field_is_found(before: Seq<char>, rest: Seq<char>)
    ensures
        occurs_at(before + FIELD@ + rest, FIELD@, before.len() as int),
        (before + FIELD@ + rest).skip(before.len() as int + FIELD@.len()) == rest,
{
    let text = before + FIELD@ + rest;
    let n = before.len() as int;
    assert(text.subrange(n, n + FIELD@.len()) =~= FIELD@);
    assert(text.skip(n + FIELD@.len()) =~= rest);
}

pub(crate) proof fn the_bracket_is_found(body: Seq<char>, after: Seq<char>)
    requires
        !body.contains(']'),
    ensures
        find_from(body + (seq![']'] + after), seq![']'], 0) == Some(body.len() as int),
        (body + (seq![']'] + after)).take(body.len() as int) == body,
{
    let close = seq![']'];
    let items = body + (close + after);
    let n = body.len() as int;
    assert(items.subrange(n, n + 1) =~= close);
    assert(occurs_at(items, close, n));
    assert forall|i: int| 0 <= i < n implies !occurs_at(items, close, i) by {
        assert(body.contains(body[i]));
        assert(items.subrange(i, i + 1)[0] == body[i]);
    }
    find_from_is_first(items, close, 0);
    assert(items.take(n) =~= body);
}

pub(crate) proof fn the_char_is_stripped(gap: Seq<char>, c: char, rest: Seq<char>)
    requires
        blank(gap),
        !white_space(c),
    ensures
        strip_prefix(trim_start(gap + (seq![c] + rest)), c) == Some(rest),
{
    trim_start_drops_blanks(gap, seq![c] + rest);
    assert((seq![c] + rest).skip(1) =~= rest);
}

/// The array's body is what stands between the brackets after the
/// `"prompt_ids"` that is read.
pub proof fn the_listed_body_is_read(
    before: Seq<char>,
    gap: Seq<char>,
    pad: Seq<char>,
    body: Seq<char>,
    after: Seq<char>,
)
    requires
        is_read(listing(before, gap, pad, body, after), before.len() as int),
        blank(gap),
        blank(pad),
        !body.contains(']'),
    ensures
        array_body(listing(before, gap, pad, body, after)) == Some(body),
{
    let items = body + (seq![']'] + after);
    let value = pad + (seq!['['] + items);
    the_field_is_found(before, gap + (seq![':'] + value));
    the_char_is_stripped(gap, ':', value);
    the_char_is_stripped(pad, '[', items);
    the_bracket_is_found(body, after);
    let text = listing(before, gap, pad, body, after);
    assert(lists_at(text, before.len() as int));
    the_first_own_array_is_found(text, 0);
}

/// Nothing that follows the closing bracket of the array after the first
/// `"prompt_ids"` changes the count.
pub proof fn nothing_behind_the_bracket_counts(
    before: Seq<char>,
    gap: Seq<char>,
    pad: Seq<char>,
    body: Seq<char>,
    after: Seq<char>,
    other: Seq<char>,
)
    requires
        forall|i: int| 0 <= i < before.len() ==> !occurs_at(before + FIELD@, FIELD@, i),
        blank(gap),
        blank(pad),
        !body.contains(']'),
    ensures
        prompt_tokens(Some(listing(before, gap, pad, body, after))) == prompt_tokens(
            Some(listing(before, gap, pad, body, other)),
        ),
{
    the_first_field_is_read(before, gap, pad, body, after);
    the_first_field_is_read(before, gap, pad, body, other);
    the_listed_body_is_read(before, gap, pad, body, after);
    the_listed_body_is_read(before, gap, pad, body, other);
}

/// A `"prompt_ids"` before which none stands is the one that is read.
pub proof fn the_first_field_is_read(
    before: Seq<char>,
    gap: Seq<char>,
    pad: Seq<char>,
    body: Seq<char>,
    after: Seq<char>,
)
    requires
        forall|i: int| 0 <= i < before.len() ==> !occurs_at(before + FIELD@, FIELD@, i),
    ensures
        is_read(listing(before, gap, pad, body, after), before.len() as int),
{
    let field = FIELD@;
    let text = listing(before, gap, pad, body, after);
    let rest = gap + (seq![':'] + (pad + (seq!['['] + (body + (seq![']'] + after)))));
    the_field_is_found(before, rest);
    assert forall|i: int| 0 <= i < before.len() implies !occurs_at(text, field, i) by {
        assert(!occurs_at(before + field, field, i));
        assert(text.subrange(i, i + field.len()) =~= (before + field).subrange(
            i,
            i + field.len(),
        ));
    }
    find_from_is_first(text, field, 0);
}

/// A text that lists items, none of which holds a comma or a closing bracket
/// and which are not all blank, is counted as having so many.
pub proof fn listed_items_are_counted(
    before: Seq<char>,
    gap: Seq<char>,
    pad: Seq<char>,
    items: Seq<Seq<char>>,
    after: Seq<char>,
)
    requires
        is_read(listing(before, gap, pad, join(items), after), before.len() as int),
        blank(gap),
        blank(pad),
        items.len() > 0,
        forall|i: int|
            0 <= i < items.len() ==> !(#[trigger] items[i]).contains(',') && !items[i].contains(']'),
        !blank(join(items)),
    ensures
        prompt_tokens(Some(listing(before, gap, pad, join(items), after))) == Some(items.len()),
{
    no_bracket_in_join(items);
    the_listed_body_is_read(before, gap, pad, join(items), after);
    commas_of_join(items);
}

/// A text that lists nothing but white space is counted as listing no items.
pub proof fn an_empty_list_counts_as_none(
    before: Seq<char>,
    gap: Seq<char>,
    pad: Seq<char>,
    body: Seq<char>,
    after: Seq<char>,
)
    requires
        is_read(listing(before, gap, pad, body, after), before.len() as int),
        blank(gap),
        blank(pad),
        blank(body),
    ensures
        prompt_tokens(Some(listing(before, gap, pad, body, after))) == Some(0nat),
{
    assert(!body.contains(']')) by {
        assert(!white_space(']'));
    }
    the_listed_body_is_read(before, gap, pad, body, after);
}

proof fn no_bracket_in_join(items: Seq<Seq<char>>)
    requires
        forall|i: int| 0 <= i < items.len() ==> !(#[trigger] items[i]).contains(']'),
    ensures
        !join(items).contains(']'),
    decreases items.len(),
{
    if items.len() > 1 {
        let first = items.drop_last();
        no_bracket_in_join(first);
        let all = join(items);
        assert forall|i: int| 0 <= i < all.len() implies all[i] != ']' by {
            let a = join(first);
            if i < a.len() {
                assert(a.contains(a[i]));
            } else if i > a.len() {
                assert(items.last().contains(items.last()[i - a.len() - 1]));
            }
        }
    } else if items.len() == 1 {
        assert(join(items) == items[0]);
    }
}

/// A text in which no `"prompt_ids"` has an array is not counted.
pub proof fn nothing_listed_is_not_counted(text: Seq<char>)
    requires
        forall|i: int| 0 <= i ==> !lists_at(text, i),
    ensures
        prompt_tokens(Some(text)) is None,
{
    find_from_is_first(text, FIELD@, 0);
    if let Some(at) = find_from(text, FIELD@, 0) {
        assert(!lists_at(text, at));
    }
    the_first_own_array_is_found(text, 0);
}

} // verus!
