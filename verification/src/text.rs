//! Text assembly for SQL statements and diagnostics.
//!
//! Every statement this crate emits is a concatenation of fixed fragments,
//! decimal numerals and already rendered expressions. The functions here build
//! such text and say exactly which characters come out.

use vstd::prelude::*;

verus! {

/// The character of one decimal digit.
pub open spec fn digit_char(digit: nat) -> char {
    if digit == 0 {
        '0'
    } else if digit == 1 {
        '1'
    } else if digit == 2 {
        '2'
    } else if digit == 3 {
        '3'
    } else if digit == 4 {
        '4'
    } else if digit == 5 {
        '5'
    } else if digit == 6 {
        '6'
    } else if digit == 7 {
        '7'
    } else if digit == 8 {
        '8'
    } else {
        '9'
    }
}

/// The decimal numeral of `n`, without leading zeros.
pub open spec fn decimal(n: nat) -> Seq<char>
    decreases n,
{
    if n < 10 {
        seq![digit_char(n)]
    } else {
        decimal(n / 10) + seq![digit_char(n % 10)]
    }
}

/// `parts` in order, with `separator` between neighbours.
pub open spec fn join(parts: Seq<Seq<char>>, separator: Seq<char>) -> Seq<char>
    decreases parts.len(),
{
    if parts.len() == 0 {
        Seq::empty()
    } else if parts.len() == 1 {
        parts[0]
    } else {
        join(parts.drop_last(), separator) + separator + parts.last()
    }
}

/// The texts held by a vector of strings.
pub open spec fn texts(strings: Seq<String>) -> Seq<Seq<char>> {
    strings.map_values(|s: String| s@)
}

/// One digit as a string.
fn digit_str(digit: u64) -> (text: &'static str)
    requires
        digit < 10,
    ensures
        text@ == seq![digit_char(digit as nat)],
{
    proof {
        reveal_strlit("0");
        reveal_strlit("1");
        reveal_strlit("2");
        reveal_strlit("3");
        reveal_strlit("4");
        reveal_strlit("5");
        reveal_strlit("6");
        reveal_strlit("7");
        reveal_strlit("8");
        reveal_strlit("9");
    }
    let text = if digit == 0 {
        "0"
    } else if digit == 1 {
        "1"
    } else if digit == 2 {
        "2"
    } else if digit == 3 {
        "3"
    } else if digit == 4 {
        "4"
    } else if digit == 5 {
        "5"
    } else if digit == 6 {
        "6"
    } else if digit == 7 {
        "7"
    } else if digit == 8 {
        "8"
    } else {
        "9"
    };
    assert(text@ =~= seq![digit_char(digit as nat)]);
    text
}

/// Renders a number in decimal.
pub fn decimal_string(n: u64) -> (text: String)
    ensures
        text@ == decimal(n as nat),
    decreases n,
{
    if n < 10 {
        digit_str(n).to_owned()
    } else {
        let mut text = decimal_string(n / 10);
        text.append(digit_str(n % 10));
        text
    }
}

/// Appends a numeral.
pub fn append_number(text: &mut String, n: u64)
    ensures
        final(text)@ == old(text)@ + decimal(n as nat),
{
    let numeral = decimal_string(n);
    text.append(numeral.as_str());
}

/// Joins strings with a separator.
pub fn join_strings(parts: &Vec<String>, separator: &str) -> (text: String)
    ensures
        text@ == join(texts(parts@), separator@),
{
    if parts.len() == 0 {
        return String::new();
    }
    let mut text = parts[0].clone();
    let mut i: usize = 1;
    assert(texts(parts@).take(1)[0] == parts@[0]@);
    while i < parts.len()
        invariant
            1 <= i <= parts.len(),
            text@ == join(texts(parts@).take(i as int), separator@),
        decreases parts.len() - i,
    {
        let ghost shown = texts(parts@).take(i as int + 1);
        assert(shown.drop_last() =~= texts(parts@).take(i as int));
        assert(shown.last() == parts@[i as int]@);
        text.append(separator);
        text.append(parts[i].as_str());
        i += 1;
    }
    assert(texts(parts@).take(parts.len() as int) =~= texts(parts@));
    text
}

/// Whether two texts are the same, character by character.
pub fn same_text(left: &str, right: &str) -> (same: bool)
    ensures
        same == (left@ == right@),
{
    left.to_owned() == right.to_owned()
}

/// A copy of a vector of strings.
pub fn copy_strings(strings: &Vec<String>) -> (copies: Vec<String>)
    ensures
        texts(copies@) == texts(strings@),
{
    let mut copies: Vec<String> = Vec::new();
    let mut i: usize = 0;
    while i < strings.len()
        invariant
            i <= strings.len(),
            copies.len() == i,
            forall|j: int| 0 <= j < i ==> copies@[j]@ == strings@[j]@,
        decreases strings.len() - i,
    {
        copies.push(strings[i].clone());
        i += 1;
    }
    assert(texts(copies@) =~= texts(strings@));
    copies
}

/// A character that may stand in an unquoted scratch relation name.
pub open spec fn scratch_char(c: char) -> bool {
    ||| '0' <= c <= '9'
    ||| 'a' <= c <= 'z'
    ||| 'A' <= c <= 'Z'
    ||| c == '_'
}

/// Whether every character of `name` is an ASCII letter, an ASCII digit or an
/// underscore. Such a name needs no quoting and cannot end a statement.
pub open spec fn scratch_name(name: Seq<char>) -> bool {
    forall|i: int| 0 <= i < name.len() ==> scratch_char(#[trigger] name[i])
}

/// Whether a name may be spliced into SQL as a scratch relation name.
pub fn safe_scratch_name(name: &str) -> (safe: bool)
    ensures
        safe == scratch_name(name@),
{
    let length: usize = name.unicode_len();
    let mut i: usize = 0;
    while i < length
        invariant
            i <= length == name@.len(),
            forall|j: int| 0 <= j < i ==> scratch_char(#[trigger] name@[j]),
        decreases length - i,
    {
        let c = name.get_char(i);
        let safe = ('0' <= c && c <= '9') || ('a' <= c && c <= 'z') || ('A' <= c && c <= 'Z') || c
            == '_';
        if !safe {
            assert(!scratch_char(name@[i as int]));
            return false;
        }
        i += 1;
    }
    true
}

/// States that a name is safe to splice. The obligation lies with the caller.
pub fn assert_scratch_name(name: &str)
    requires
        scratch_name(name@),
{
}

} // verus!
