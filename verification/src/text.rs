//! Text built character by character: decimal numbers and quoted names.
use vstd::prelude::*;

verus! {

/// `String::push`: the character is put behind the text that was there.
pub assume_specification[ std::string::String::push ](s: &mut std::string::String, c: char)
    ensures
        final(s)@ == old(s)@.push(c),
;

/// How a text is shown to those who look for a mistake: between quotes, with the characters escaped
/// that are not to be printed as they are.
pub uninterp spec fn debug_text(text: Seq<char>) -> Seq<char>;

/// `<str as std::fmt::Debug>::fmt`, as `std::format` calls it: one text is always shown the same
/// way. Which characters are escaped, and how, is left open.
#[verifier::external_body]
fn shown(text: &str) -> (r: String)
    ensures
        r@ == debug_text(text@),
{
    format!("{:?}", text)
}

/// Puts a text behind another one, as it is shown to those who look for a mistake.
pub fn push_debug(text: &mut String, name: &str)
    ensures
        final(text)@ == old(text)@ + debug_text(name@),
{
    text.append(shown(name).as_str());
}

/// How an expression says that it is written, and how it says that it is shown to those who look
/// for a mistake.
pub struct Wording {
    pub written: String,
    pub shown: String,
}

impl Clone for Wording {
    fn clone(&self) -> (r: Self)
        ensures
            r == *self,
    {
        Wording { written: self.written.clone(), shown: self.shown.clone() }
    }
}

/// The character of a digit below ten.
pub open spec fn digit(d: int) -> char {
    if d == 0 {
        '0'
    } else if d == 1 {
        '1'
    } else if d == 2 {
        '2'
    } else if d == 3 {
        '3'
    } else if d == 4 {
        '4'
    } else if d == 5 {
        '5'
    } else if d == 6 {
        '6'
    } else if d == 7 {
        '7'
    } else if d == 8 {
        '8'
    } else {
        '9'
    }
}

/// The decimal digits of a number, without leading zeros.
pub open spec fn digits(n: nat) -> Seq<char>
    decreases n,
{
    if n < 10 {
        seq![digit(n as int)]
    } else {
        digits(n / 10).push(digit((n % 10) as int))
    }
}

/// A whole number in decimal, with a minus sign before a negative one.
pub open spec fn decimal(n: int) -> Seq<char> {
    if n < 0 {
        seq!['-'] + digits((-n) as nat)
    } else {
        digits(n as nat)
    }
}

/// Whether `c` may stand in a name that is written without quotes.
pub open spec fn is_plain(c: char) -> bool {
    ||| 'A' <= c <= 'Z'
    ||| 'a' <= c <= 'z'
    ||| '0' <= c <= '9'
    ||| c == '_'
    ||| c == '@'
}

/// Whether a name has to be written between quotes.
pub open spec fn needs_quotes(name: Seq<char>) -> bool {
    name.len() == 0 || exists|i: int| 0 <= i < name.len() && !is_plain(#[trigger] name[i])
}

/// A name with a backslash before each quote and each backslash.
pub open spec fn escaped(name: Seq<char>) -> Seq<char>
    decreases name.len(),
{
    if name.len() == 0 {
        Seq::empty()
    } else {
        let before = escaped(name.drop_last());
        if name.last() == '"' || name.last() == '\\' {
            before.push('\\').push(name.last())
        } else {
            before.push(name.last())
        }
    }
}

/// A name as it is written in a path.
pub open spec fn quoted(name: Seq<char>) -> Seq<char> {
    if needs_quotes(name) {
        seq!['"'] + escaped(name) + seq!['"']
    } else {
        name
    }
}

/// A digit is the character that many places behind zero.
pub proof fn a_digit_counts_from_zero(d: int)
    requires
        0 <= d < 10,
    ensures
        digit(d) as int == '0' as int + d,
{
}

/// A number is written by its digits, the last one last, and a negative one with a minus sign.
pub proof fn a_number_is_written_by_its_digits(n: nat, d: nat)
    requires
        d < 10,
    ensures
        decimal(d as int) == seq![digit(d as int)],
        n > 0 ==> decimal((10 * n + d) as int) == decimal(n as int) + seq![digit(d as int)],
        n > 0 ==> decimal(-n) == seq!['-'] + decimal(n as int),
{
    if n > 0 {
        assert((10 * n + d) / 10 == n && (10 * n + d) % 10 == d);
        assert(digits(10 * n + d) =~= digits(n) + seq![digit(d as int)]);
    }
}

/// A name is written as it is if it has a character and all of them are letters, digits, underscores
/// or at signs. Any other name is written between quotes, with a backslash before each quote and each
/// backslash.
pub proof fn a_name_is_written_between_quotes_if_need_be(name: Seq<char>)
    ensures
        ({
            let plain = name.len() > 0 && forall|i: int|
                #![trigger name[i]]
                0 <= i < name.len() ==> 'A' <= name[i] <= 'Z' || 'a' <= name[i] <= 'z' || '0'
                    <= name[i] <= '9' || name[i] == '_' || name[i] == '@';
            quoted(name) == if plain {
                name
            } else {
                seq!['"'] + escaped(name) + seq!['"']
            }
        }),
{
    if needs_quotes(name) && name.len() > 0 {
        let i = choose|i: int| 0 <= i < name.len() && !is_plain(#[trigger] name[i]);
        assert(!is_plain(name[i]));
    } else {
        assert forall|i: int| 0 <= i < name.len() implies is_plain(#[trigger] name[i]) by {}
    }
}

/// Characters are escaped one by one.
pub proof fn characters_are_escaped_one_by_one(name: Seq<char>, c: char)
    ensures
        escaped(Seq::empty()) == Seq::<char>::empty(),
        escaped(name.push(c)) == escaped(name) + if c == '"' || c == '\\' {
            seq!['\\', c]
        } else {
            seq![c]
        },
{
    assert(name.push(c).drop_last() =~= name);
    assert(escaped(name.push(c)) =~= escaped(name) + if c == '"' || c == '\\' {
        seq!['\\', c]
    } else {
        seq![c]
    });
}

fn digit_char(d: u128) -> (c: char)
    requires
        d < 10,
    ensures
        c == digit(d as int),
{
    match d {
        0 => '0',
        1 => '1',
        2 => '2',
        3 => '3',
        4 => '4',
        5 => '5',
        6 => '6',
        7 => '7',
        8 => '8',
        _ => '9',
    }
}

fn push_digits(text: &mut String, n: u128)
    ensures
        final(text)@ == old(text)@ + digits(n as nat),
    decreases n,
{
    if n >= 10 {
        push_digits(text, n / 10);
    }
    text.push(digit_char(n % 10));
    assert(text@ =~= old(text)@ + digits(n as nat));
}

/// Puts a number behind a text, in decimal.
pub fn push_decimal(text: &mut String, n: i64)
    ensures
        final(text)@ == old(text)@ + decimal(n as int),
{
    if n < 0 {
        text.push('-');
        push_digits(text, (-(n as i128)) as u128);
        assert(text@ =~= old(text)@ + decimal(n as int));
    } else {
        push_digits(text, n as u128);
    }
}

fn plain(c: char) -> (r: bool)
    ensures
        r == is_plain(c),
{
    ('A' <= c && c <= 'Z') || ('a' <= c && c <= 'z') || ('0' <= c && c <= '9') || c == '_' || c
        == '@'
}

fn must_quote(name: &str) -> (r: bool)
    ensures
        r == needs_quotes(name@),
{
    if name.is_empty() {
        return true;
    }
    let len: usize = name.unicode_len();
    let mut i: usize = 0;
    while i < len
        invariant
            i <= len,
            len == name@.len(),
            name@.len() > 0,
            forall|j: int| 0 <= j < i ==> is_plain(#[trigger] name@[j]),
        decreases len - i,
    {
        if !plain(name.get_char(i)) {
            return true;
        }
        i += 1;
    }
    false
}

fn push_escaped(text: &mut String, name: &str)
    ensures
        final(text)@ == old(text)@ + escaped(name@),
{
    let len: usize = name.unicode_len();
    let mut i: usize = 0;
    while i < len
        invariant
            i <= len,
            len == name@.len(),
            text@ == old(text)@ + escaped(name@.take(i as int)),
        decreases len - i,
    {
        let c = name.get_char(i);
        proof {
            assert(name@.take(i + 1).drop_last() =~= name@.take(i as int));
        }
        if c == '"' || c == '\\' {
            text.push('\\');
        }
        text.push(c);
        i += 1;
        assert(text@ =~= old(text)@ + escaped(name@.take(i as int)));
    }
    assert(name@.take(len as int) =~= name@);
}

/// Puts a name behind a text as it is written in a path.
pub fn push_quoted(text: &mut String, name: &str)
    ensures
        final(text)@ == old(text)@ + quoted(name@),
{
    if must_quote(name) {
        text.push('"');
        push_escaped(text, name);
        text.push('"');
        assert(text@ =~= old(text)@ + quoted(name@));
    } else {
        text.append(name);
    }
}

} // verus!
