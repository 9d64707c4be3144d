//! Helpers.

use core::fmt::Debug;
use vstd::prelude::*;
use vstd::string::{StrSliceExecFns, StringExecFns};

verus! {

/// `String::push`: `c` goes behind the last character of `text`.
#[verifier::external_body]
pub(crate) fn push_char(text: &mut String, c: char)
    ensures
        final(text)@ == old(text)@.push(c),
{
    text.push(c);
}

/// `format!("{:?}", value)`: the text that the `Debug` of the item's type gives
/// for it. Nothing is claimed of that text.
#[verifier::external_body]
pub(crate) fn debug_text<T: Debug>(value: &T) -> String {
    format!("{:?}", value)
}

/// The texts `parts` in a row, with `separator` between one and the next.
pub open spec fn joined(parts: Seq<Seq<char>>, separator: Seq<char>) -> Seq<char>
    decreases parts.len(),
{
    if parts.len() == 0 {
        Seq::empty()
    } else if parts.len() == 1 {
        parts[0]
    } else {
        joined(parts.drop_last(), separator) + separator + parts.last()
    }
}

/// What each of the texts holds.
pub open spec fn texts_of(parts: Seq<String>) -> Seq<Seq<char>> {
    Seq::new(parts.len(), |i: int| parts[i]@)
}

/// The texts `parts` in a row, with `separator` between one and the next.
pub fn join(parts: &Vec<String>, separator: &str) -> (text: String)
    ensures
        text@ == joined(texts_of(parts@), separator@),
{
    let mut text = String::new();
    let mut index: usize = 0;
    proof {
        assert(texts_of(parts@).subrange(0, 0) =~= Seq::<Seq<char>>::empty());
    }
    while index < parts.len()
        invariant
            index <= parts@.len(),
            text@ == joined(texts_of(parts@).subrange(0, index as int), separator@),
        decreases parts@.len() - index,
    {
        proof {
            let before = texts_of(parts@).subrange(0, index as int);
            let after = texts_of(parts@).subrange(0, index + 1);
            assert(after.drop_last() =~= before);
            assert(after.last() == parts@[index as int]@);
        }
        if index > 0 {
            text.append(separator);
        }
        text.append(parts[index].as_str());
        index = index + 1;
    }
    proof {
        assert(texts_of(parts@).subrange(0, parts@.len() as int) =~= texts_of(parts@));
    }
    text
}

/// The place of the first `=` in `text`; its length if it has none.
pub open spec fn equals_sign_at(text: Seq<char>) -> nat
    decreases text.len(),
{
    if text.len() == 0 || text[0] == '=' {
        0
    } else {
        1 + equals_sign_at(text.drop_first())
    }
}

/// Finds the first `=` in `text`.
fn find_equals_sign(text: &str) -> (at: usize)
    ensures
        at == equals_sign_at(text@),
        at <= text@.len(),
{
    let len = text.unicode_len();
    let mut at: usize = 0;
    proof {
        assert(text@.skip(0) =~= text@);
    }
    while at < len && text.get_char(at) != '='
        invariant
            at <= len,
            len == text@.len(),
            equals_sign_at(text@) == at + equals_sign_at(text@.skip(at as int)),
        decreases len - at,
    {
        proof {
            assert(text@.skip(at as int).drop_first() =~= text@.skip(at + 1));
        }
        at = at + 1;
    }
    at
}

/// The name of the variable that `var_name` asks for: the part before its first
/// `=`, all of it if it has none.
pub fn variable_name(var_name: &str) -> (name: &str)
    ensures
        name@ == var_name@.subrange(0, equals_sign_at(var_name@) as int),
{
    let at = find_equals_sign(var_name);
    var_name.substring_char(0, at)
}

/// The value of a variable, where `var_name` is its name, or its name, a `=` and a
/// value to take in place of the environment's, and `found` is what the
/// environment has under the name. A value behind a `=` is returned if it is not
/// empty, and nothing if it is empty; without a `=`, `found` is returned.
pub fn get_env_var(var_name: &str, found: Option<String>) -> (value: Option<String>)
    ensures
        equals_sign_at(var_name@) >= var_name@.len() ==> value == found,
        equals_sign_at(var_name@) + 1 == var_name@.len() ==> value.is_none(),
        equals_sign_at(var_name@) + 1 < var_name@.len() ==> value.is_some()
            && value.unwrap()@ == var_name@.subrange(
            equals_sign_at(var_name@) as int + 1,
            var_name@.len() as int,
        ),
{
    let at = find_equals_sign(var_name);
    let len = var_name.unicode_len();
    if at >= len {
        found
    } else if at + 1 == len {
        None
    } else {
        Some(String::from_str(var_name.substring_char(at + 1, len)))
    }
}

} // verus!
