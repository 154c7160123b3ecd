//! The text of a composition: its parts as a list, its net and the number of
//! its parts, as in `[1, 2, 1] of 4 with 3 parts`.
use vstd::prelude::*;
use vstd::string::{to_string_from_display_ensures, StringExecFns};

verus! {

/// The character of the digit `d`.
pub open spec fn digit(d: nat) -> char {
    if d == 0 {
        '0'
    } else if d == 1 {
        '1'
    } else if d == 2 {
        '2'
    } else if d == 3 {
        '3'
    } else if d == 4 {
        '4'
    } else if d == 5 {
        '5'
    } else if d == 6 {
        '6'
    } else if d == 7 {
        '7'
    } else if d == 8 {
        '8'
    } else {
        '9'
    }
}

/// The number `n` in decimal digits, without leading zeros.
pub open spec fn decimal(n: nat) -> Seq<char>
    decreases n,
{
    if n < 10 {
        seq![digit(n)]
    } else {
        decimal(n / 10).push(digit(n % 10))
    }
}

/// The texts in their order, with a comma and a space between two of them.
pub open spec fn joined(texts: Seq<Seq<char>>) -> Seq<char>
    decreases texts.len(),
{
    if texts.len() == 0 {
        Seq::empty()
    } else if texts.len() == 1 {
        texts[0]
    } else {
        joined(texts.drop_last()) + ", "@ + texts.last()
    }
}

/// The text of a composition whose parts read `part_texts` and whose net
/// reads `net_text`.
pub open spec fn rendered(part_texts: Seq<Seq<char>>, net_text: Seq<char>) -> Seq<char> {
    "["@ + joined(part_texts) + "] of "@ + net_text + " with "@ + decimal(part_texts.len())
        + " parts"@
}

/// How `value` reads when formatted for debugging: `core::fmt::Debug::fmt`,
/// reached through `format!`. What the text holds is up to the type, so
/// nothing is promised of it.
#[verifier::external_body]
fn debug_text<T: core::fmt::Debug>(value: &T) -> (text: String) {
    format!("{:?}", value)
}

/// `text` is a text that formatting `value` for debugging may give.
pub closed spec fn debug_reads<T: core::fmt::Debug>(value: T, text: Seq<char>) -> bool {
    exists|formatted: String|
        formatted@ == text && #[trigger] call_ensures(debug_text::<T>, (&value,), formatted)
}

/// `text` is a text that displaying `value` may give.
pub open spec fn display_reads<T: core::fmt::Display>(value: T, text: Seq<char>) -> bool {
    exists|displayed: String|
        displayed@ == text && #[trigger] to_string_from_display_ensures::<T>(&value, displayed)
}

/// `text` is a text of the composition of `parts` with the net `net`: each
/// part formatted for debugging, the net displayed, the whole put together
/// as [`rendered`] says.
pub open spec fn reads<T: core::fmt::Debug + core::fmt::Display>(
    parts: Seq<T>,
    net: T,
    text: Seq<char>,
) -> bool {
    exists|part_texts: Seq<Seq<char>>, net_text: Seq<char>|
        {
            &&& part_texts.len() == parts.len()
            &&& forall|i: int|
                0 <= i < parts.len() ==> debug_reads(parts[i], #[trigger] part_texts[i])
            &&& display_reads(net, net_text)
            &&& text == #[trigger] rendered(part_texts, net_text)
        }
}

/// The digit `d` as a text of one character.
fn digit_text(d: usize) -> (text: &'static str)
    requires
        d < 10,
    ensures
        text@ == seq![digit(d as nat)],
{
    proof {
        reveal_strlit("0");
        reveal_strlit("1");
        reveal_strlit("2");
        reveal_strlit("3");
        reveal_strlit("4");
        reveal_strlit("5");
        reveal_strlit("6");
        reveal_strlit("7");
        reveal_strlit("8");
        reveal_strlit("9");
    }
    if d == 0 {
        "0"
    } else if d == 1 {
        "1"
    } else if d == 2 {
        "2"
    } else if d == 3 {
        "3"
    } else if d == 4 {
        "4"
    } else if d == 5 {
        "5"
    } else if d == 6 {
        "6"
    } else if d == 7 {
        "7"
    } else if d == 8 {
        "8"
    } else {
        "9"
    }
}

/// The number `n` in decimal digits.
pub fn decimal_text(n: usize) -> (text: String)
    ensures
        text@ == decimal(n as nat),
    decreases n,
{
    if n < 10 {
        String::from_str(digit_text(n))
    } else {
        let mut text = decimal_text(n / 10);
        text.append(digit_text(n % 10));
        text
    }
}

/// The texts joined by a comma and a space.
fn join_texts(texts: &Vec<String>) -> (text: String)
    ensures
        text@ == joined(texts.deep_view()),
{
    let mut text = String::new();
    let mut i: usize = 0;
    while i < texts.len()
        invariant
            i <= texts.len(),
            text@ == joined(texts.deep_view().take(i as int)),
        decreases texts.len() - i,
    {
        proof {
            let next = texts.deep_view().take(i + 1);
            assert(next.drop_last() =~= texts.deep_view().take(i as int));
        }
        if i > 0 {
            text.append(", ");
        }
        text.append(texts[i].as_str());
        i += 1;
    }
    proof {
        assert(texts.deep_view().take(texts.len() as int) =~= texts.deep_view());
    }
    text
}

/// The text of a composition, from the texts of its parts and of its net.
pub fn render(part_texts: &Vec<String>, net_text: &str) -> (text: String)
    ensures
        text@ == rendered(part_texts.deep_view(), net_text@),
{
    let mut text = String::from_str("[");
    let list = join_texts(part_texts);
    text.append(list.as_str());
    text.append("] of ");
    text.append(net_text);
    text.append(" with ");
    let count = decimal_text(part_texts.len());
    text.append(count.as_str());
    text.append(" parts");
    text
}

/// The text of each part, formatted for debugging.
fn debug_texts<T: core::fmt::Debug>(parts: &Vec<T>) -> (texts: Vec<String>)
    ensures
        texts.len() == parts.len(),
        forall|i: int| 0 <= i < parts.len() ==> debug_reads(parts@[i], #[trigger] texts@[i]@),
{
    let mut texts: Vec<String> = Vec::new();
    let mut i: usize = 0;
    while i < parts.len()
        invariant
            i <= parts.len(),
            texts.len() == i,
            forall|j: int| 0 <= j < i ==> debug_reads(parts@[j], #[trigger] texts@[j]@),
        decreases parts.len() - i,
    {
        texts.push(debug_text(&parts[i]));
        i += 1;
    }
    texts
}

/// The text of the composition of `parts` with the net `net`.
pub fn render_values<T: core::fmt::Debug + core::fmt::Display>(parts: &Vec<T>, net: &T) -> (text:
    String)
    ensures
        reads(parts@, *net, text@),
{
    let part_texts = debug_texts(parts);
    let net_text = net.to_string();
    render(&part_texts, net_text.as_str())
}

} // verus!
