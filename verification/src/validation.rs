//! Validation of user-supplied string fields: length bounds and a
//! character whitelist, measured in characters.

use vstd::prelude::*;

use crate::config::Validation;
use crate::error::ValidationError;

verus! {

/// Whether c is an ASCII letter or digit.
pub open spec fn is_alphanumeric_char(c: char) -> bool {
    (0x30 <= c as u32 <= 0x39) || (0x41 <= c as u32 <= 0x5a) || (0x61 <= c as u32 <= 0x7a)
}

/// Whether c is an ASCII punctuation character.
pub open spec fn is_punctuation_char(c: char) -> bool {
    (0x21 <= c as u32 <= 0x2f) || (0x3a <= c as u32 <= 0x40) || (0x5b <= c as u32 <= 0x60) || (0x7b
        <= c as u32 <= 0x7e)
}

/// Whether every character of s is allowed in a validated field.
pub open spec fn chars_allowed(s: Seq<char>, allow_punctuation: bool) -> bool {
    forall|i: int|
        0 <= i < s.len() ==> is_alphanumeric_char(#[trigger] s[i]) || (allow_punctuation
            && is_punctuation_char(s[i]))
}

/// Checks a field against the configured length bounds and the character
/// whitelist: letters and digits, with ASCII punctuation also allowed for
/// secrets such as passwords and emails. Checks run in this order: too
/// short, too long, disallowed character.
pub fn validate_string(
    value: &str,
    name: &'static str,
    cfg: &Validation,
    allow_punctuation: bool,
) -> (r: Result<(), ValidationError>)
    ensures
        r is Ok <==> cfg.min_length <= value@.len() <= cfg.max_length && chars_allowed(
            value@,
            allow_punctuation,
        ),
        value@.len() < cfg.min_length <==> (r matches Err(e) && (e matches
        ValidationError::MinLength { field, min } && field@ == name@ && min == cfg.min_length)),
        cfg.min_length <= value@.len() && value@.len() > cfg.max_length <==> (r matches Err(e) && (
        e matches ValidationError::MaxLength { field, max } && field@ == name@ && max
            == cfg.max_length)),
        cfg.min_length <= value@.len() <= cfg.max_length && !chars_allowed(value@, allow_punctuation)
            && !allow_punctuation <==> (r matches Err(e) && (e matches
        ValidationError::Alphanumeric { field } && field@ == name@)),
        cfg.min_length <= value@.len() <= cfg.max_length && !chars_allowed(value@, allow_punctuation)
            && allow_punctuation <==> (r matches Err(e) && (e matches ValidationError::Ascii {
            field,
        } && field@ == name@)),
{
    let len = value.unicode_len();
    if len < cfg.min_length {
        return Err(ValidationError::MinLength { field: name, min: cfg.min_length });
    }
    if len > cfg.max_length {
        return Err(ValidationError::MaxLength { field: name, max: cfg.max_length });
    }
    let mut i: usize = 0;
    while i < len
        invariant
            i <= len,
            len == value@.len(),
            cfg.min_length <= len <= cfg.max_length,
            forall|k: int|
                0 <= k < i ==> is_alphanumeric_char(#[trigger] value@[k]) || (allow_punctuation
                    && is_punctuation_char(value@[k])),
        decreases len - i,
    {
        let c = value.get_char(i);
        let v = c as u32;
        let alnum = (0x30 <= v && v <= 0x39) || (0x41 <= v && v <= 0x5a) || (0x61 <= v && v
            <= 0x7a);
        let punct = (0x21 <= v && v <= 0x2f) || (0x3a <= v && v <= 0x40) || (0x5b <= v && v
            <= 0x60) || (0x7b <= v && v <= 0x7e);
        if !(alnum || (allow_punctuation && punct)) {
            if allow_punctuation {
                return Err(ValidationError::Ascii { field: name });
            } else {
                return Err(ValidationError::Alphanumeric { field: name });
            }
        }
        i = i + 1;
    }
    Ok(())
}

} // verus!
