//! How a handle is shown: by the name of its entry, or by its index where the
//! entry has no name.

use vstd::prelude::*;
use vstd::string::*;

use crate::id::Id;
use crate::name::Name;
use crate::registry::{name_of, Registry};

verus! {

/// The character that stands for a decimal digit.
pub open spec fn digit_char(digit: nat) -> char
    recommends
        digit < 10,
{
    ('0' as u8 + digit) as u8 as char
}

/// The decimal notation of a number: no sign, no leading zeros, `0` for zero.
pub open spec fn decimal(number: nat) -> Seq<char>
    decreases number,
{
    if number < 10 {
        seq![digit_char(number)]
    } else {
        decimal(number / 10).push(digit_char(number % 10))
    }
}

/// What stands for an entry without a name: `unknown(<index>)`.
pub open spec fn unknown(index: nat) -> Seq<char> {
    "unknown("@ + decimal(index) + ")"@
}

/// How a handle is shown: by the qualified name of its entry, or as
/// [`unknown`] where it points at no name.
pub open spec fn display_of(name: Option<Name>, index: nat) -> Seq<char> {
    match name {
        Some(name) => name@,
        None => unknown(index),
    }
}

/// How a handle is shown for debugging: as [`display_of`] shows it, in
/// brackets behind a label for the handle type.
pub open spec fn debug_of(label: Seq<char>, name: Option<Name>, index: nat) -> Seq<char> {
    label + "("@ + display_of(name, index) + ")"@
}

fn digit_text(digit: usize) -> (text: &'static str)
    requires
        digit < 10,
    ensures
        text@ == seq![digit_char(digit as nat)],
{
    proof {
        reveal_strlit("0");
        reveal_strlit("1");
        reveal_strlit("2");
        reveal_strlit("3");
        reveal_strlit("4");
        reveal_strlit("5");
        reveal_strlit("6");
        reveal_strlit("7");
        reveal_strlit("8");
        reveal_strlit("9");
    }
    let text = match digit {
        0 => "0",
        1 => "1",
        2 => "2",
        3 => "3",
        4 => "4",
        5 => "5",
        6 => "6",
        7 => "7",
        8 => "8",
        _ => "9",
    };
    text
}

/// Appends the decimal notation of `number` to `text`.
fn append_decimal(text: &mut String, number: usize)
    ensures
        final(text)@ == old(text)@ + decimal(number as nat),
    decreases number,
{
    if number >= 10 {
        append_decimal(text, number / 10);
    }
    text.append(digit_text(number % 10));
}

/// The text that shows `id`: the qualified name of the entry that `id` points
/// at in `registry`, or `unknown(<index>)` where it points at no name.
pub fn display<K: Id, V>(id: K, registry: &Registry<K, V>) -> (text: String)
    ensures
        text@ == display_of(name_of(registry@, id), id.spec_to_index() as nat),
{
    match registry.get_name(id) {
        Some(name) => name.qualified().to_owned(),
        None => {
            let mut text = "unknown(".to_owned();
            append_decimal(&mut text, id.to_index());
            text.append(")");
            text
        },
    }
}

/// The text that shows `id` for debugging, under a label for its type:
/// `<label>(<display text>)`.
pub fn debug<K: Id, V>(label: &str, id: K, registry: &Registry<K, V>) -> (text: String)
    ensures
        text@ == debug_of(label@, name_of(registry@, id), id.spec_to_index() as nat),
{
    let mut text = label.to_owned();
    text.append("(");
    let shown = display(id, registry);
    text.append(shown.as_str());
    text.append(")");
    text
}

} // verus!
