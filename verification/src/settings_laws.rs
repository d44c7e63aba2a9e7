//! What the settings mean.

use crate::settings::decimal;
use crate::settings::idle_setting;
use crate::settings::is_digit;
use crate::settings::settings;
use crate::settings::unsigned;
use crate::settings::value_of;
use crate::settings::SettingsError;
use vstd::prelude::*;

verus! {

/// The digits are the ten from 0 to 9.
pub proof fn there_are_ten_digits(c: char)
    ensures
        is_digit(c) <==> seq!['0', '1', '2', '3', '4', '5', '6', '7', '8', '9'].contains(c),
{
    let all = seq!['0', '1', '2', '3', '4', '5', '6', '7', '8', '9'];
    if is_digit(c) {
        assert(all[c as u32 - '0' as u32] == c);
    }
}

/// A digit more makes the number ten times as large and adds the digit.
pub proof fn a_digit_more_is_ten_times_as_much(digits: Seq<char>, d: int, c: char)
    requires
        0 <= d <= 9,
        seq!['0', '1', '2', '3', '4', '5', '6', '7', '8', '9'][d] == c,
    ensures
        value_of(seq![]) == 0,
        value_of(digits.push(c)) == 10 * value_of(digits) + d,
{
    assert(digits.push(c).drop_last() =~= digits);
    assert(c as u32 - '0' as u32 == d);
}

/// A number is written by decimal digits, of which there is at least one, if it
/// fits in 64 bits; a plus sign may stand before them.
pub proof fn a_number_is_digits_that_fit(digits: Seq<char>)
    requires
        digits.len() > 0,
        forall|i: int| 0 <= i < digits.len() ==> is_digit(#[trigger] digits[i]),
    ensures
        value_of(digits) <= 0xffff_ffff_ffff_ffff ==> decimal(digits) == Some(value_of(digits)),
        value_of(digits) > 0xffff_ffff_ffff_ffff ==> decimal(digits) is None,
        decimal(seq!['+'] + digits) == decimal(digits),
{
    assert(is_digit(digits[0]));
    assert(unsigned(digits) == digits);
    assert((seq!['+'] + digits).skip(1) =~= digits);
    assert(unsigned(seq!['+'] + digits) == digits);
}

/// What holds anything else writes no number.
pub proof fn anything_else_is_no_number(text: Seq<char>, i: int)
    requires
        text.len() == 0 || text == seq!['+'] || (0 <= i < text.len() && !is_digit(text[i]) && (i > 0
            || text[i] != '+')),
    ensures
        decimal(text) is None,
{
    if text == seq!['+'] {
        assert(unsigned(text) =~= seq![]);
    } else if text.len() > 0 {
        if text[0] == '+' {
            assert(unsigned(text)[i - 1] == text[i]);
        } else {
            assert(unsigned(text)[i] == text[i]);
        }
    }
}

/// The idle period is 900 seconds where none is set, and else the number set,
/// which must be one and must not be zero.
pub proof fn the_idle_period_is_the_number_set(text: Seq<char>)
    ensures
        idle_setting(None) == Ok::<nat, SettingsError>(900),
        text.len() == 0 ==> idle_setting(Some(text)) == Ok::<nat, SettingsError>(900),
        text.len() > 0 ==> match decimal(text) {
            Some(secs) => if secs == 0 {
                idle_setting(Some(text)) == Err::<nat, _>(SettingsError::IdleSecs)
            } else {
                idle_setting(Some(text)) == Ok::<_, SettingsError>(secs)
            },
            None => idle_setting(Some(text)) == Err::<nat, _>(SettingsError::IdleSecs),
        },
{
}

/// Placement by tokens is on for `least_tokens`, off for `hash` and where
/// nothing is set, and every other setting is an error.
pub proof fn only_least_tokens_turns_placement_on(
    placement: Seq<char>,
    idle_secs: Option<Seq<char>>,
)
    ensures
        settings(None, idle_secs) == Ok::<Option<nat>, SettingsError>(None),
        placement.len() == 0 || placement == seq!['h', 'a', 's', 'h'] ==> settings(
            Some(placement),
            idle_secs,
        ) == Ok::<Option<nat>, SettingsError>(None),
        placement == seq!['l', 'e', 'a', 's', 't', '_', 't', 'o', 'k', 'e', 'n', 's'] ==> match (
            settings(Some(placement), idle_secs),
            idle_setting(idle_secs),
        ) {
            (Ok(Some(on)), Ok(secs)) => on == secs,
            (Err(e), Err(cause)) => e == cause,
            _ => false,
        },
        placement.len() > 0 && placement != seq!['h', 'a', 's', 'h'] && placement != seq![
            'l', 'e', 'a', 's', 't', '_', 't', 'o', 'k', 'e', 'n', 's',
        ] ==> settings(Some(placement), idle_secs) == Err::<Option<nat>, _>(
            SettingsError::Placement,
        ),
{
    reveal_strlit("hash");
    reveal_strlit("least_tokens");
    assert("hash"@ =~= seq!['h', 'a', 's', 'h']);
    assert("least_tokens"@ =~= seq!['l', 'e', 'a', 's', 't', '_', 't', 'o', 'k', 'e', 'n', 's']);
}

} // verus!
