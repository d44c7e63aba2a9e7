//! How many tokens a request carries.

use crate::text::blank;
use crate::text::chars_of;
use crate::text::count;
use crate::text::find;
use crate::text::find_from;
use crate::text::find_from_in_suffix;
use crate::text::find_from_is_first;
use crate::text::is_white_space;
use crate::text::matches_at;
use crate::text::occurs_at;
use crate::text::skip_white_space;
use crate::text::strip_prefix;
use crate::text::trim_start;
use crate::text::white_space;
use vstd::prelude::*;
use vstd::utf8::encode_utf8;

verus! {

/// The field that lists the token ids of a request.
pub const FIELD: &'static str = "\"prompt_ids\"";

/// The text of a request, where there is one.
pub open spec fn text_of(request_text: Option<&str>) -> Option<Seq<char>> {
    match request_text {
        Some(text) => Some(text@),
        None => None,
    }
}

/// What stands between the brackets of the array that follows a [`FIELD`] which
/// ends at index `end`, up to the first closing bracket. White space may stand
/// on either side of the colon.
pub open spec fn array_after(text: Seq<char>, end: int) -> Option<Seq<char>> {
    match strip_prefix(trim_start(text.skip(end)), ':') {
        Some(value) => match strip_prefix(trim_start(value), '[') {
            Some(items) => match find_from(items, seq![']'], 0) {
                Some(close) => Some(items.take(close)),
                None => None,
            },
            None => None,
        },
        None => None,
    }
}

/// Whether a [`FIELD`] with an array stands at index `i`.
pub open spec fn lists_at(text: Seq<char>, i: int) -> bool {
    occurs_at(text, FIELD@, i) && array_after(text, i + FIELD@.len()) is Some
}

/// Where in a JSON text an index lies.
pub struct Nesting {
    /// How many braces and brackets are open there.
    pub depth: int,
    /// Whether it lies inside a string.
    pub quoted: bool,
    /// Whether it lies inside a string, right behind an escaping backslash.
    pub escaped: bool,
}

/// Where the index behind a character lies, given where the character does.
pub open spec fn nesting_behind(at: Nesting, c: char) -> Nesting {
    if at.quoted {
        Nesting {
            quoted: at.escaped || c != '"',
            escaped: !at.escaped && c == '\\',
            ..at
        }
    } else if c == '"' {
        Nesting { quoted: true, ..at }
    } else if c == '{' || c == '[' {
        Nesting { depth: at.depth + 1, ..at }
    } else if c == '}' || c == ']' {
        Nesting { depth: at.depth - 1, ..at }
    } else {
        at
    }
}

/// Where index `i` of `text` lies.
pub open spec fn nesting(text: Seq<char>, i: int) -> Nesting
    decreases i,
{
    if i <= 0 {
        Nesting { depth: 0, quoted: false, escaped: false }
    } else {
        nesting_behind(nesting(text, i - 1), text[i - 1])
    }
}

/// Whether `text` begins as a JSON object does.
pub open spec fn is_object(text: Seq<char>) -> bool {
    strip_prefix(trim_start(text), '{') is Some
}

/// Whether index `i` lies directly in the outermost object of `text`.
pub open spec fn is_outermost(text: Seq<char>, i: int) -> bool {
    nesting(text, i) == (Nesting { depth: 1, quoted: false, escaped: false })
}

/// Whether a [`FIELD`] of the outermost object, with an array, stands at index
/// `i`.
pub open spec fn own_list_at(text: Seq<char>, i: int) -> bool {
    lists_at(text, i) && is_outermost(text, i)
}

/// The body of the first array, from index `from` on, that a [`FIELD`] of the
/// outermost object has.
pub open spec fn own_array_from(text: Seq<char>, from: int) -> Option<Seq<char>>
    decreases text.len() - from + 1,
{
    if from < 0 || from + FIELD@.len() > text.len() {
        None
    } else if own_list_at(text, from) {
        array_after(text, from + FIELD@.len())
    } else {
        own_array_from(text, from + 1)
    }
}

/// The body of the array after the first [`FIELD`] of `text`, if it has one.
pub open spec fn first_array(text: Seq<char>) -> Option<Seq<char>> {
    match find_from(text, FIELD@, 0) {
        Some(at) => array_after(text, at + FIELD@.len()),
        None => None,
    }
}

/// The body of the array that lists the token ids: the one after the first
/// [`FIELD`], or else, where that is a string value, say, or a field of another
/// kind, the one that a [`FIELD`] of the outermost object has.
pub open spec fn array_body(text: Seq<char>) -> Option<Seq<char>> {
    match first_array(text) {
        Some(body) => Some(body),
        None => if is_object(text) {
            own_array_from(text, 0)
        } else {
            None
        },
    }
}

/// The number of entries of a flat array, given what stands between its
/// brackets.
pub open spec fn entries(body: Seq<char>) -> nat {
    if blank(body) {
        0
    } else {
        count(body, ',') + 1
    }
}

/// The number of token ids that a request lists, if it lists them.
pub open spec fn prompt_tokens(text: Option<Seq<char>>) -> Option<nat> {
    match text {
        Some(text) => match array_body(text) {
            Some(body) => Some(entries(body)),
            None => None,
        },
        None => None,
    }
}

/// The number of tokens that a request is taken to carry when it lists no
/// token ids: one for every four bytes.
pub open spec fn estimate(text: Option<Seq<char>>) -> nat {
    match text {
        Some(text) => encode_utf8(text).len() / 4,
        None => 0,
    }
}

/// The index that follows `c`, when `s` holds `c` as its first character from
/// `from` on that is not white space.
fn after_char(s: &Vec<char>, from: usize, c: char) -> (r: Option<usize>)
    requires
        from <= s@.len(),
    ensures
        match r {
            Some(i) => i <= s@.len() && strip_prefix(trim_start(s@.skip(from as int)), c) == Some(
                s@.skip(i as int),
            ),
            None => strip_prefix(trim_start(s@.skip(from as int)), c) is None,
        },
{
    let i: usize = skip_white_space(s, from);
    if i < s.len() && s[i] == c {
        assert(s@.skip(i as int).skip(1) =~= s@.skip(i + 1));
        Some(i + 1)
    } else {
        None
    }
}

/// The number of entries between the indices `from` and `to`.
fn count_entries(s: &Vec<char>, from: usize, to: usize) -> (r: u64)
    requires
        from <= to < s@.len(),
    ensures
        r == entries(s@.subrange(from as int, to as int)),
{
    let n: usize = s.len();
    let ghost body = s@.subrange(from as int, to as int);
    let mut commas: u64 = 0;
    let mut only_blanks: bool = true;
    let mut i: usize = from;
    while i < to
        invariant
            n == s@.len(),
            from <= i <= to < n,
            body == s@.subrange(from as int, to as int),
            commas == count(body.take(i - from), ','),
            commas <= i - from,
            only_blanks == blank(body.take(i - from)),
        decreases to - i,
    {
        let c: char = s[i];
        let ghost k = i - from;
        assert(body.take(k + 1).drop_last() =~= body.take(k));
        assert(body.take(k + 1).last() == c);
        assert(blank(body.take(k + 1)) == (blank(body.take(k)) && white_space(c))) by {
            assert(forall|j: int| 0 <= j < k ==> body.take(k)[j] == body.take(k + 1)[j]);
            assert(body.take(k + 1)[k] == c);
        }
        if c == ',' {
            commas = commas + 1;
        }
        if !is_white_space(c) {
            only_blanks = false;
        }
        i = i + 1;
    }
    assert(body.take(to - from) =~= body);
    if only_blanks {
        0
    } else {
        commas + 1
    }
}

/// The index that follows the last closing bracket, 0 if there is none.
fn after_last_bracket(s: &Vec<char>) -> (r: usize)
    ensures
        r <= s@.len(),
        r > 0 ==> s@[r - 1] == ']',
        forall|i: int| r <= i < s@.len() ==> s@[i] != ']',
{
    let mut r: usize = s.len();
    while r > 0 && s[r - 1] != ']'
        invariant
            r <= s@.len(),
            forall|i: int| r <= i < s@.len() ==> s@[i] != ']',
        decreases r,
    {
        r = r - 1;
    }
    r
}

/// The number of entries of the array that follows a field which ends at index
/// `end`, if there is one. No closing bracket stands from `limit` on.
fn count_array(s: &Vec<char>, end: usize, limit: usize) -> (r: Option<u64>)
    requires
        end <= s@.len(),
        forall|i: int| limit <= i < s@.len() ==> s@[i] != ']',
    ensures
        match r {
            Some(n) => array_after(s@, end as int) matches Some(body) && n == entries(body),
            None => array_after(s@, end as int) is None,
        },
{
    let value: usize = match after_char(s, end, ':') {
        Some(i) => i,
        None => return None,
    };
    let items: usize = match after_char(s, value, '[') {
        Some(i) => i,
        None => return None,
    };
    let ghost rest = s@.skip(items as int);
    let close: Vec<char> = vec![']'];
    proof {
        assert(close@ =~= seq![']']);
        find_from_in_suffix(s@, close@, items as int, 0);
        find_from_is_first(s@, close@, items as int);
    }
    if items >= limit {
        proof {
            if let Some(i) = find_from(s@, close@, items as int) {
                assert(s@.subrange(i, i + 1)[0] == ']');
            }
        }
        return None;
    }
    match find(s, &close, items) {
        Some(at) => {
            assert(rest.take(at - items) =~= s@.subrange(items as int, at as int));
            Some(count_entries(s, items, at))
        },
        None => None,
    }
}

/// The number of entries of the first array that a field of the outermost
/// object has, if there is one. No closing bracket stands from `limit` on.
fn count_own_array(s: &Vec<char>, field: &Vec<char>, limit: usize) -> (r: Option<u64>)
    requires
        field@ == FIELD@,
        forall|j: int| limit <= j < s@.len() ==> s@[j] != ']',
    ensures
        match r {
            Some(n) => own_array_from(s@, 0) matches Some(body) && n == entries(body),
            None => own_array_from(s@, 0) is None,
        },
{
    let n: usize = s.len();
    let m: usize = field.len();
    let mut depth: i128 = 0;
    let mut quoted: bool = false;
    let mut escaped: bool = false;
    let mut i: usize = 0;
    while i < n && m <= n - i
        invariant
            field@ == FIELD@,
            n == s@.len(),
            m == field@.len(),
            i <= n,
            -i <= depth <= i,
            forall|j: int| limit <= j < s@.len() ==> s@[j] != ']',
            nesting(s@, i as int) == (Nesting { depth: depth as int, quoted, escaped }),
            own_array_from(s@, i as int) == own_array_from(s@, 0),
        decreases n - i,
    {
        if depth == 1 && !quoted && !escaped && matches_at(s, field, i) {
            let counted: Option<u64> = count_array(s, i + m, limit);
            if counted.is_some() {
                return counted;
            }
        }
        let c: char = s[i];
        if quoted {
            quoted = escaped || c != '"';
            escaped = !escaped && c == '\\';
        } else if c == '"' {
            quoted = true;
        } else if c == '{' || c == '[' {
            depth = depth + 1;
        } else if c == '}' || c == ']' {
            depth = depth - 1;
        }
        i = i + 1;
    }
    proof {
        reveal_strlit("\"prompt_ids\"");
    }
    None
}

/// Number of entries in the body's flat `prompt_ids` array, if it has one.
///
/// The array after the first `"prompt_ids"` of the text is taken. Where none
/// follows it, it is no such field, and the outermost object's own fields are
/// looked at.
pub fn prompt_token_count(request_text: Option<&str>) -> (r: Option<u64>)
    ensures
        match r {
            Some(n) => prompt_tokens(text_of(request_text)) == Some(n as nat),
            None => prompt_tokens(text_of(request_text)) is None,
        },
{
    let text: &str = match request_text {
        Some(text) => text,
        None => return None,
    };
    let s: Vec<char> = chars_of(text);
    let field: Vec<char> = chars_of(FIELD);
    let limit: usize = after_last_bracket(&s);
    proof {
        find_from_is_first(s@, field@, 0);
    }
    if let Some(at) = find(&s, &field, 0) {
        assert(at + field.len() <= s.len());
        let counted: Option<u64> = count_array(&s, at + field.len(), limit);
        if counted.is_some() {
            return counted;
        }
    }
    assert(s@.skip(0) =~= s@);
    if after_char(&s, 0, '{').is_some() {
        count_own_array(&s, &field, limit)
    } else {
        None
    }
}

/// The number of tokens that a request is taken to carry when it lists none.
pub fn estimated_tokens(request_text: Option<&str>) -> (r: u64)
    ensures
        r == estimate(text_of(request_text)),
        match request_text {
            Some(text) => 4 * r <= encode_utf8(text@).len() < 4 * r + 4,
            None => r == 0,
        },
{
    match request_text {
        Some(text) => text.as_bytes().len() as u64 / 4,
        None => 0,
    }
}

} // verus!
