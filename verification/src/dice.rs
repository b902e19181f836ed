//! Dice rolls, and the check that an icon is a Font Awesome class name.
use vstd::prelude::*;
use vstd::string::*;

use crate::engine::{fails_with, EngineError};
use crate::text::{chars_of, find_char, first_index, owned, slice_chars, chars_eq};
use crate::zones::validation;

verus! {

/// A number drawn from the thread's random generator, between `low` and
/// `high` inclusive (`rand::random_range(low..=high)`). Only the range is
/// stated; the draw itself is chance.
#[verifier::external_body]
pub(crate) fn random_between(low: usize, high: usize) -> (r: usize)
    requires
        low <= high,
    ensures
        low <= r <= high,
{
    rand::random_range(low..=high)
}

/// The message for a die without sides.
pub open spec fn no_sides_message() -> Seq<char> {
    "Dice must have at least 1 side"@
}

/// The message for a roll of no dice.
pub open spec fn no_dice_message() -> Seq<char> {
    "Must roll at least 1 die"@
}

fn validate_roll(sides: u32) -> (r: Result<(), EngineError>)
    ensures
        r is Ok <==> sides > 0,
        r is Err ==> fails_with(r, no_sides_message()),
{
    if sides == 0 {
        return Err(validation(owned("Dice must have at least 1 side")));
    }
    Ok(())
}

fn validate_rolls(count: usize, sides: u32) -> (r: Result<(), EngineError>)
    ensures
        r is Ok <==> count > 0 && sides > 0,
        r is Err ==> fails_with(r, if count == 0 { no_dice_message() } else { no_sides_message() }),
{
    if count == 0 {
        return Err(validation(owned("Must roll at least 1 die")));
    }
    validate_roll(sides)
}

/// Rolls one die with the given number of sides.
pub fn roll_die(sides: u32) -> (r: Result<u32, EngineError>)
    ensures
        r is Ok <==> sides > 0,
        r is Err ==> fails_with(r, no_sides_message()),
        r matches Ok(v) ==> 1 <= v <= sides,
{
    validate_roll(sides)?;
    Ok(random_between(1, sides as usize) as u32)
}

/// Rolls `count` dice with the given number of sides; each result is its
/// own roll.
pub fn roll_dice(count: usize, sides: u32) -> (r: Result<Vec<u32>, EngineError>)
    ensures
        r is Ok <==> count > 0 && sides > 0,
        r is Err ==> fails_with(r, if count == 0 { no_dice_message() } else { no_sides_message() }),
        r matches Ok(vs) ==> vs@.len() == count && forall|i: int| 0 <= i < count ==> 1 <= #[trigger] vs@[i] <= sides,
{
    validate_rolls(count, sides)?;
    let mut rolls: Vec<u32> = Vec::new();
    let mut i: usize = 0;
    while i < count
        invariant
            i <= count,
            sides > 0,
            rolls@.len() == i,
            forall|k: int| 0 <= k < i ==> 1 <= #[trigger] rolls@[k] <= sides,
        decreases count - i,
    {
        rolls.push(random_between(1, sides as usize) as u32);
        i += 1;
    }
    Ok(rolls)
}

/// The sum of a sequence of rolls.
pub open spec fn sum_of(s: Seq<u32>) -> int
    decreases s.len(),
{
    if s.len() == 0 {
        0
    } else {
        sum_of(s.drop_last()) + s.last()
    }
}

pub proof fn lemma_sum_bounds(s: Seq<u32>, sides: u32)
    requires
        forall|i: int| 0 <= i < s.len() ==> 1 <= #[trigger] s[i] <= sides,
    ensures
        s.len() <= sum_of(s) <= s.len() * sides,
    decreases s.len(),
{
    if s.len() > 0 {
        lemma_sum_bounds(s.drop_last(), sides);
        assert(s.drop_last().len() * sides + sides == s.len() * sides) by (nonlinear_arith)
            requires s.drop_last().len() + 1 == s.len();
    }
}

pub proof fn lemma_sum_prefix(s: Seq<u32>, k: int)
    requires
        0 <= k <= s.len(),
    ensures
        sum_of(s.take(k)) <= sum_of(s),
    decreases s.len(),
{
    if k < s.len() {
        assert(s.drop_last().take(k) =~= s.take(k));
        lemma_sum_prefix(s.drop_last(), k);
    } else {
        assert(s.take(k) =~= s);
    }
}

/// Adds up rolls.
pub fn sum_rolls(rolls: &Vec<u32>) -> (t: u32)
    requires
        sum_of(rolls@) <= u32::MAX,
    ensures
        t == sum_of(rolls@),
{
    let mut total: u32 = 0;
    let mut i: usize = 0;
    while i < rolls.len()
        invariant
            i <= rolls@.len(),
            sum_of(rolls@) <= u32::MAX,
            total == sum_of(rolls@.take(i as int)),
        decreases rolls.len() - i,
    {
        assert(rolls@.take(i + 1).drop_last() =~= rolls@.take(i as int));
        proof {
            lemma_sum_prefix(rolls@, i + 1);
        }
        total = total + rolls[i];
        i += 1;
    }
    assert(rolls@.take(rolls.len() as int) =~= rolls@);
    total
}

/// Rolls `count` dice and adds them up: the total of `count` rolls, each
/// between 1 and `sides`, so between `count` and `count * sides`.
pub fn roll_dice_total(count: usize, sides: u32) -> (r: Result<u32, EngineError>)
    requires
        count * sides <= u32::MAX,
    ensures
        r is Ok <==> count > 0 && sides > 0,
        r is Err ==> fails_with(r, if count == 0 { no_dice_message() } else { no_sides_message() }),
        r matches Ok(t) ==> exists|rolls: Seq<u32>|
            rolls.len() == count && (forall|i: int| 0 <= i < count ==> 1 <= #[trigger] rolls[i] <= sides)
                && t == #[trigger] sum_of(rolls),
        r matches Ok(t) ==> count <= t <= count * sides,
{
    let rolls = roll_dice(count, sides)?;
    proof {
        lemma_sum_bounds(rolls@, sides);
        assert(rolls@.len() * sides == count * sides);
    }
    let total = sum_rolls(&rolls);
    Ok(total)
}

/// `fa-` followed by one or more lowercase ASCII letters, digits or hyphens.
pub open spec fn is_fa_token_spec(s: Seq<char>) -> bool {
    &&& s.len() > 3
    &&& s.take(3) == "fa-"@
    &&& forall|i: int| 3 <= i < s.len() ==> ('a' <= #[trigger] s[i] <= 'z' || '0' <= s[i] <= '9' || s[i] == '-')
}

/// One of the Font Awesome style prefixes.
pub open spec fn is_fa_style(s: Seq<char>) -> bool {
    s == "fa-solid"@ || s == "fa-regular"@ || s == "fa-brands"@
}

/// A Font Awesome class name: a single icon token that is not a bare style
/// prefix, or a style prefix, one space, and an icon token.
pub open spec fn valid_fa_icon(icon: Seq<char>) -> bool {
    let k = first_index(icon, ' ');
    icon.len() > 0 && if k < 0 {
        is_fa_token_spec(icon) && !is_fa_style(icon)
    } else {
        is_fa_style(icon.take(k)) && is_fa_token_spec(icon.skip(k + 1))
    }
}

/// The `Debug` rendering of a string, quoted and escaped.
pub uninterp spec fn debug_quoted(s: Seq<char>) -> Seq<char>;

/// Renders a string with `format!("{:?}", ..)`: quoted, with escapes. The
/// contract only names the text.
#[verifier::external_body]
fn debug_text(s: &str) -> (r: String)
    ensures
        r@ == debug_quoted(s@),
{
    format!("{:?}", s)
}

/// The message for an icon that is not a Font Awesome class name.
pub open spec fn invalid_icon_message(icon: Seq<char>) -> Seq<char> {
    "invalid Font Awesome icon: "@ + debug_quoted(icon)
        + ". Expected format: \"fa-<name>\" or \"fa-(solid|regular|brands) fa-<name>\""@
}

/// Whether `s` matches `fa-[a-z0-9-]+`.
fn is_fa_token(s: &[char]) -> (r: bool)
    ensures
        r == is_fa_token_spec(s@),
{
    if s.len() <= 3 || s[0] != 'f' || s[1] != 'a' || s[2] != '-' {
        proof {
            if s@.len() > 3 {
                reveal_strlit("fa-");
                assert(s@.take(3)[0] == s@[0]);
                assert(s@.take(3)[1] == s@[1]);
                assert(s@.take(3)[2] == s@[2]);
                assert(s@.take(3) != "fa-"@);
            }
        }
        return false;
    }
    proof {
        reveal_strlit("fa-");
        assert(s@.take(3) =~= "fa-"@);
    }
    let mut i: usize = 3;
    while i < s.len()
        invariant
            3 <= i <= s@.len(),
            forall|k: int| 3 <= k < i ==> ('a' <= #[trigger] s@[k] <= 'z' || '0' <= s@[k] <= '9' || s@[k] == '-'),
        decreases s.len() - i,
    {
        let c = s[i];
        if !(('a' <= c && c <= 'z') || ('0' <= c && c <= '9') || c == '-') {
            return false;
        }
        i += 1;
    }
    true
}

/// Whether `s` is a style prefix rather than a renderable icon.
fn is_fa_style_prefix(s: &[char]) -> (r: bool)
    ensures
        r == is_fa_style(s@),
{
    chars_eq(s, &chars_of("fa-solid")) || chars_eq(s, &chars_of("fa-regular")) || chars_eq(s, &chars_of("fa-brands"))
}

/// Checks that `icon` is a Font Awesome class name: `fa-<name>` or
/// `fa-(solid|regular|brands) fa-<name>`, where the name is lowercase ASCII
/// letters, digits and hyphens.
pub fn validate_fa_icon(icon: &str) -> (r: Result<(), EngineError>)
    ensures
        r is Ok <==> valid_fa_icon(icon@),
        r is Err ==> fails_with(r, invalid_icon_message(icon@)),
{
    let c = chars_of(icon);
    let ok = if c.len() == 0 {
        false
    } else {
        match find_char(&c, ' ') {
            None => is_fa_token(&c) && !is_fa_style_prefix(&c),
            Some(k) => {
                let style = slice_chars(&c, 0, k);
                let name = slice_chars(&c, k + 1, c.len());
                assert(style@ =~= c@.take(k as int));
                assert(name@ =~= c@.skip(k + 1));
                is_fa_style_prefix(&style) && is_fa_token(&name)
            },
        }
    };
    if ok {
        Ok(())
    } else {
        let mut m = owned("invalid Font Awesome icon: ");
        m.append(debug_text(icon).as_str());
        m.append(". Expected format: \"fa-<name>\" or \"fa-(solid|regular|brands) fa-<name>\"");
        Err(validation(m))
    }
}

} // verus!
