//! The settings that turn the placement on, as text.

use crate::model::PlacementModel;
use crate::placement::TokenPlacement;
use crate::prompt::text_of;
use crate::text::chars_of;
use crate::text::str_eq;
use crate::time::Duration;
use vstd::prelude::*;

verus! {

/// The environment variable that chooses how sessions are placed.
pub const PLACEMENT_ENV: &'static str = "VLLM_ROUTER_SESSION_PLACEMENT";

/// The environment variable that holds the idle period, in seconds.
pub const IDLE_SECS_ENV: &'static str = "VLLM_ROUTER_SESSION_IDLE_SECS";

/// The idle period where none is set, in seconds.
pub const DEFAULT_IDLE_SECS: u64 = 900;

/// Which setting holds a value that means nothing.
#[derive(Debug, Clone, Copy, PartialEq, Eq, Structural)]
pub enum SettingsError {
    /// The way of placing is neither `hash` nor `least_tokens`.
    Placement,
    /// The idle period is no positive integer.
    IdleSecs,
}

/// Whether `c` is a decimal digit.
pub open spec fn is_digit(c: char) -> bool {
    '0' <= c <= '9'
}

/// The number that a sequence of decimal digits writes.
pub open spec fn value_of(digits: Seq<char>) -> nat
    decreases digits.len(),
{
    if digits.len() == 0 {
        0
    } else {
        (value_of(digits.drop_last()) * 10 + (digits.last() as u32 - '0' as u32)) as nat
    }
}

/// `text` without one leading plus sign.
pub open spec fn unsigned(text: Seq<char>) -> Seq<char> {
    if text.len() > 0 && text[0] == '+' {
        text.skip(1)
    } else {
        text
    }
}

/// The number that `text` writes: decimal digits, at least one, after an
/// optional plus sign. It fits in 64 bits.
pub open spec fn decimal(text: Seq<char>) -> Option<nat> {
    let digits = unsigned(text);
    if digits.len() > 0 && (forall|i: int| 0 <= i < digits.len() ==> is_digit(#[trigger] digits[i]))
        && value_of(digits) <= u64::MAX {
        Some(value_of(digits))
    } else {
        None
    }
}

/// The idle period in seconds that a setting gives.
pub open spec fn idle_setting(idle_secs: Option<Seq<char>>) -> Result<nat, SettingsError> {
    match idle_secs {
        None => Ok(DEFAULT_IDLE_SECS as nat),
        Some(text) => if text.len() == 0 {
            Ok(DEFAULT_IDLE_SECS as nat)
        } else {
            match decimal(text) {
                Some(secs) => if secs > 0 {
                    Ok(secs)
                } else {
                    Err(SettingsError::IdleSecs)
                },
                None => Err(SettingsError::IdleSecs),
            }
        },
    }
}

/// The idle period in seconds of the placement that the settings ask for, none
/// where they ask for no placement by tokens.
pub open spec fn settings(
    placement: Option<Seq<char>>,
    idle_secs: Option<Seq<char>>,
) -> Result<Option<nat>, SettingsError> {
    match placement {
        None => Ok(None),
        Some(text) => if text.len() == 0 || text == "hash"@ {
            Ok(None)
        } else if text == "least_tokens"@ {
            match idle_setting(idle_secs) {
                Ok(secs) => Ok(Some(secs)),
                Err(e) => Err(e),
            }
        } else {
            Err(SettingsError::Placement)
        },
    }
}

proof fn value_grows(digits: Seq<char>, n: int)
    requires
        0 <= n <= digits.len(),
        forall|i: int| 0 <= i < digits.len() ==> is_digit(#[trigger] digits[i]),
    ensures
        value_of(digits.take(n)) <= value_of(digits),
    decreases digits.len() - n,
{
    if n == digits.len() {
        assert(digits.take(n) =~= digits);
    } else {
        assert(digits.take(n + 1).drop_last() =~= digits.take(n));
        assert(is_digit(digits[n]));
        value_grows(digits, n + 1);
    }
}

/// The number that `text` writes, if it writes one that fits in 64 bits.
pub fn parse_decimal(text: &str) -> (r: Option<u64>)
    ensures
        match r {
            Some(n) => decimal(text@) == Some(n as nat),
            None => decimal(text@) is None,
        },
{
    let s: Vec<char> = chars_of(text);
    let ghost digits = unsigned(text@);
    let start: usize = if s.len() > 0 && s[0] == '+' {
        1
    } else {
        0
    };
    assert(digits =~= s@.skip(start as int));
    if start == s.len() {
        return None;
    }
    let mut n: u64 = 0;
    let mut i: usize = start;
    while i < s.len()
        invariant
            s@ == text@,
            digits == unsigned(text@),
            digits == s@.skip(start as int),
            start <= i <= s@.len(),
            forall|j: int| 0 <= j < i - start ==> is_digit(#[trigger] digits[j]),
            n == value_of(digits.take(i - start)),
        decreases s@.len() - i,
    {
        let c: char = s[i];
        let ghost k = i - start;
        assert(digits[k] == c);
        if c < '0' || '9' < c {
            assert(!is_digit(digits[k]));
            return None;
        }
        let digit: u64 = (c as u32 - '0' as u32) as u64;
        assert(digits.take(k + 1).drop_last() =~= digits.take(k));
        assert(value_of(digits.take(k + 1)) == n * 10 + digit);
        let next: Option<u64> = match n.checked_mul(10) {
            Some(tens) => tens.checked_add(digit),
            None => None,
        };
        match next {
            Some(value) => {
                n = value;
            },
            None => {
                proof {
                    if forall|j: int| 0 <= j < digits.len() ==> is_digit(#[trigger] digits[j]) {
                        value_grows(digits, k + 1);
                    }
                }
                return None;
            },
        }
        i = i + 1;
    }
    assert(digits.take(i - start) =~= digits);
    Some(n)
}

impl TokenPlacement {
    /// Builds a placement from the texts of the two settings; `None` keeps
    /// plain consistent hashing.
    pub fn from_settings(placement: Option<&str>, idle_secs: Option<&str>) -> (r: Result<
        Option<TokenPlacement>,
        SettingsError,
    >)
        ensures
            match (r, settings(text_of(placement), text_of(idle_secs))) {
                (Ok(Some(p)), Ok(Some(secs))) => {
                    &&& p.wf()
                    &&& p@ == PlacementModel::empty(secs * 1_000_000_000)
                },
                (Ok(None), Ok(None)) => true,
                (Err(e), Err(expected)) => e == expected,
                _ => false,
            },
    {
        let placement: &str = match placement {
            None => return Ok(None),
            Some(text) => text,
        };
        if placement.is_empty() || str_eq(placement, "hash") {
            return Ok(None);
        }
        if !str_eq(placement, "least_tokens") {
            return Err(SettingsError::Placement);
        }
        let secs: u64 = match idle_secs {
            None => DEFAULT_IDLE_SECS,
            Some(text) => if text.is_empty() {
                DEFAULT_IDLE_SECS
            } else {
                match parse_decimal(text) {
                    Some(secs) => if secs > 0 {
                        secs
                    } else {
                        return Err(SettingsError::IdleSecs);
                    },
                    None => return Err(SettingsError::IdleSecs),
                }
            },
        };
        Ok(Some(TokenPlacement::new(Duration::from_secs(secs))))
    }
}

} // verus!
