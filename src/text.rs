use vstd::prelude::*;
use vstd::string::*;

verus! {

/// The digit for a value below sixteen, upper or lower case.
pub open spec fn digit_char(d: nat, upper: bool) -> char {
    if d == 0 {
        '0'
    } else if d == 1 {
        '1'
    } else if d == 2 {
        '2'
    } else if d == 3 {
        '3'
    } else if d == 4 {
        '4'
    } else if d == 5 {
        '5'
    } else if d == 6 {
        '6'
    } else if d == 7 {
        '7'
    } else if d == 8 {
        '8'
    } else if d == 9 {
        '9'
    } else if d == 10 {
        if upper {
            'A'
        } else {
            'a'
        }
    } else if d == 11 {
        if upper {
            'B'
        } else {
            'b'
        }
    } else if d == 12 {
        if upper {
            'C'
        } else {
            'c'
        }
    } else if d == 13 {
        if upper {
            'D'
        } else {
            'd'
        }
    } else if d == 14 {
        if upper {
            'E'
        } else {
            'e'
        }
    } else if upper {
        'F'
    } else {
        'f'
    }
}

/// The `width` lowest hexadecimal digits of `n`, most significant first.
pub open spec fn hex_text(n: nat, width: nat, upper: bool) -> Seq<char>
    decreases width,
{
    if width == 0 {
        Seq::empty()
    } else {
        hex_text(n / 16, (width - 1) as nat, upper).push(digit_char(n % 16, upper))
    }
}

/// The `width` lowest hexadecimal digits of `n`, upper case.
pub open spec fn hex_digits(n: nat, width: nat) -> Seq<char> {
    hex_text(n, width, true)
}

/// The `width` lowest hexadecimal digits of `n`, lower case.
pub open spec fn hex_digits_lower(n: nat, width: nat) -> Seq<char> {
    hex_text(n, width, false)
}

/// Decimal digits of `n`, without leading zeros.
pub open spec fn decimal_digits(n: nat) -> Seq<char>
    decreases n,
{
    if n < 10 {
        seq![digit_char(n, true)]
    } else {
        decimal_digits(n / 10).push(digit_char(n % 10, true))
    }
}

/// Decimal text of an integer, with a leading `-` when it is negative.
pub open spec fn decimal(v: int) -> Seq<char> {
    if v < 0 {
        seq!['-'] + decimal_digits((-v) as nat)
    } else {
        decimal_digits(v as nat)
    }
}

/// The pieces of `s` between newline characters; one piece more than `s`
/// holds newlines.
pub open spec fn split_lines(s: Seq<char>) -> Seq<Seq<char>>
    decreases s.len(),
{
    if s.len() == 0 {
        seq![Seq::empty()]
    } else {
        let rest = split_lines(s.drop_last());
        if s.last() == '\n' {
            rest.push(Seq::empty())
        } else {
            rest.update(rest.len() - 1, rest.last().push(s.last()))
        }
    }
}

/// The pieces joined, with `sep` between two neighbours.
pub open spec fn joined(pieces: Seq<Seq<char>>, sep: Seq<char>) -> Seq<char>
    decreases pieces.len(),
{
    if pieces.len() == 0 {
        Seq::empty()
    } else if pieces.len() == 1 {
        pieces[0]
    } else {
        joined(pieces.drop_last(), sep) + sep + pieces.last()
    }
}

/// Views of a list of strings.
pub open spec fn string_views(v: Seq<String>) -> Seq<Seq<char>> {
    v.map_values(|p: String| p@)
}

/// The two strings one after the other.
pub(crate) fn concat(a: &str, b: &str) -> (r: String)
    ensures
        r@ == a@ + b@,
{
    let mut s = String::from_str(a);
    s.append(b);
    s
}

fn digit(d: u32, upper: bool) -> (r: char)
    requires
        d < 16,
    ensures
        r == digit_char(d as nat, upper),
{
    match d {
        0 => '0',
        1 => '1',
        2 => '2',
        3 => '3',
        4 => '4',
        5 => '5',
        6 => '6',
        7 => '7',
        8 => '8',
        9 => '9',
        10 => if upper { 'A' } else { 'a' },
        11 => if upper { 'B' } else { 'b' },
        12 => if upper { 'C' } else { 'c' },
        13 => if upper { 'D' } else { 'd' },
        14 => if upper { 'E' } else { 'e' },
        _ => if upper { 'F' } else { 'f' },
    }
}

/// Appends the `width` lowest hexadecimal digits of `n`.
fn push_hex(n: u32, width: u32, upper: bool, out: &mut Vec<char>)
    ensures
        final(out)@ == old(out)@ + hex_text(n as nat, width as nat, upper),
    decreases width,
{
    if width > 0 {
        push_hex(n / 16, width - 1, upper, out);
        out.push(digit(n % 16, upper));
    } else {
        assert(old(out)@ + hex_text(n as nat, 0, upper) =~= old(out)@);
    }
}

/// Appends the decimal digits of `n`.
fn push_decimal(n: u32, out: &mut Vec<char>)
    ensures
        final(out)@ == old(out)@ + decimal_digits(n as nat),
    decreases n,
{
    if n >= 10 {
        push_decimal(n / 10, out);
    }
    out.push(digit(n % 10, true));
    assert(n < 10 ==> n % 10 == n);
}

/// Four upper-case hexadecimal digits, zero-padded.
pub(crate) fn hex4(v: u16) -> (r: String)
    ensures
        r@ == hex_digits(v as nat, 4),
{
    let mut out: Vec<char> = Vec::new();
    push_hex(v as u32, 4, true, &mut out);
    string_from_chars(&out)
}

/// Four lower-case hexadecimal digits, zero-padded.
pub(crate) fn hex4_lower(v: u16) -> (r: String)
    ensures
        r@ == hex_digits_lower(v as nat, 4),
{
    let mut out: Vec<char> = Vec::new();
    push_hex(v as u32, 4, false, &mut out);
    string_from_chars(&out)
}

/// Two upper-case hexadecimal digits, zero-padded.
pub(crate) fn hex2(v: u8) -> (r: String)
    ensures
        r@ == hex_digits(v as nat, 2),
{
    let mut out: Vec<char> = Vec::new();
    push_hex(v as u32, 2, true, &mut out);
    string_from_chars(&out)
}

/// Decimal text of a bank number.
pub(crate) fn decimal_string(v: i16) -> (r: String)
    ensures
        r@ == decimal(v as int),
{
    let mut out: Vec<char> = Vec::new();
    if v < 0 {
        out.push('-');
        push_decimal((0 - (v as i32)) as u32, &mut out);
        assert(out@ =~= seq!['-'] + decimal_digits((-v) as nat));
    } else {
        push_decimal(v as u32, &mut out);
        assert(out@ =~= decimal_digits(v as nat));
    }
    string_from_chars(&out)
}

/// Relies on std's `FromIterator<char>` for `String`: the characters in order.
#[verifier::external_body]
pub(crate) fn string_from_chars(chars: &Vec<char>) -> (r: String)
    ensures
        r@ == chars@,
{
    chars.iter().collect()
}

/// Relies on std's `str::split` with a `char` pattern: the pieces between
/// the newlines, in order.
#[verifier::external_body]
pub(crate) fn lines_of(s: &str) -> (r: Vec<String>)
    ensures
        r@.len() == split_lines(s@).len(),
        forall|i: int| 0 <= i < r@.len() ==> #[trigger] r@[i]@ == split_lines(s@)[i],
{
    s.split('\n').map(|l| l.to_string()).collect()
}

/// Relies on `itertools::Itertools::join`: the `Display` text of each item,
/// which for a `String` is the string itself, with the separator between
/// two neighbours.
#[verifier::external_body]
pub(crate) fn join_with(pieces: &Vec<String>, sep: &str) -> (r: String)
    ensures
        r@ == joined(string_views(pieces@), sep@),
{
    itertools::Itertools::join(&mut pieces.iter(), sep)
}

} // verus!
