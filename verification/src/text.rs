//! Small helpers on text that the notation, display and statistics
//! functions share.

use vstd::prelude::*;
use vstd::string::StringExecFns;

verus! {

/// A run of `count` spaces.
pub open spec fn spaces(count: nat) -> Seq<char> {
    Seq::new(count, |i: int| ' ')
}

/// The text in the middle of a field of the given width. Where the padding
/// cannot be split evenly, the extra space stands on the right. A text that
/// fills the field or is wider stays as it is.
pub open spec fn centered(text: Seq<char>, width: nat) -> Seq<char> {
    if text.len() >= width {
        text
    } else {
        let pad = (width - text.len()) as nat;
        spaces(pad / 2) + text + spaces((pad - pad / 2) as nat)
    }
}

/// The text at the right edge of a field of the given width. A text that
/// fills the field or is wider stays as it is.
pub open spec fn right_aligned(text: Seq<char>, width: nat) -> Seq<char> {
    if text.len() >= width {
        text
    } else {
        spaces((width - text.len()) as nat) + text
    }
}

/// The character of a decimal digit.
pub open spec fn digit_char(digit: nat) -> char {
    if digit == 0 {
        '0'
    } else if digit == 1 {
        '1'
    } else if digit == 2 {
        '2'
    } else if digit == 3 {
        '3'
    } else if digit == 4 {
        '4'
    } else if digit == 5 {
        '5'
    } else if digit == 6 {
        '6'
    } else if digit == 7 {
        '7'
    } else if digit == 8 {
        '8'
    } else {
        '9'
    }
}

/// A number written in decimal, without leading zeros.
pub open spec fn decimal(n: nat) -> Seq<char>
    decreases n,
{
    if n < 10 {
        seq![digit_char(n)]
    } else {
        decimal(n / 10).push(digit_char(n % 10))
    }
}

/// Whether two strings hold the same characters.
pub fn same_text(a: &str, b: &str) -> (same: bool)
    ensures
        same == (a@ == b@),
{
    let n = a.unicode_len();
    if b.unicode_len() != n {
        return false;
    }
    let mut i: usize = 0;
    while i < n
        invariant
            n == a@.len(),
            n == b@.len(),
            i <= n,
            forall|k: int| 0 <= k < i ==> a@[k] == b@[k],
        decreases n - i,
    {
        if a.get_char(i) != b.get_char(i) {
            return false;
        }
        i += 1;
    }
    assert(a@ =~= b@);
    true
}

/// Appends `count` spaces to a string.
pub fn push_spaces(s: &mut String, count: usize)
    ensures
        final(s)@ == old(s)@ + spaces(count as nat),
{
    let mut i: usize = 0;
    proof {
        reveal_strlit(" ");
        assert(s@ =~= old(s)@ + spaces(0));
    }
    while i < count
        invariant
            i <= count,
            s@ == old(s)@ + spaces(i as nat),
            " "@.len() == 1,
            " "@[0] == ' ',
        decreases count - i,
    {
        s.append(" ");
        i += 1;
        proof {
            assert(s@ =~= old(s)@ + spaces(i as nat));
        }
    }
}

/// Centres a text in a field of the given width.
pub fn center(text: &str, width: usize) -> (s: String)
    ensures
        s@ == centered(text@, width as nat),
{
    let n = text.unicode_len();
    if n >= width {
        return String::from_str(text);
    }
    let pad = width - n;
    let left = pad / 2;
    let mut s = String::new();
    push_spaces(&mut s, left);
    s.append(text);
    push_spaces(&mut s, pad - left);
    proof {
        assert(s@ =~= centered(text@, width as nat));
    }
    s
}

/// Moves a text to the right edge of a field of the given width.
pub fn align_right(text: &str, width: usize) -> (s: String)
    ensures
        s@ == right_aligned(text@, width as nat),
{
    let n = text.unicode_len();
    if n >= width {
        return String::from_str(text);
    }
    let mut s = String::new();
    push_spaces(&mut s, width - n);
    s.append(text);
    proof {
        assert(s@ =~= right_aligned(text@, width as nat));
    }
    s
}

/// Appends a decimal digit to a string.
fn push_digit(s: &mut String, digit: u8)
    requires
        digit < 10,
    ensures
        final(s)@ == old(s)@.push(digit_char(digit as nat)),
{
    proof {
        reveal_strlit("0");
        reveal_strlit("1");
        reveal_strlit("2");
        reveal_strlit("3");
        reveal_strlit("4");
        reveal_strlit("5");
        reveal_strlit("6");
        reveal_strlit("7");
        reveal_strlit("8");
        reveal_strlit("9");
    }
    if digit == 0 {
        s.append("0");
    } else if digit == 1 {
        s.append("1");
    } else if digit == 2 {
        s.append("2");
    } else if digit == 3 {
        s.append("3");
    } else if digit == 4 {
        s.append("4");
    } else if digit == 5 {
        s.append("5");
    } else if digit == 6 {
        s.append("6");
    } else if digit == 7 {
        s.append("7");
    } else if digit == 8 {
        s.append("8");
    } else {
        s.append("9");
    }
    proof {
        assert(s@ =~= old(s)@.push(digit_char(digit as nat)));
    }
}

/// Appends a number in decimal to a string.
pub fn push_decimal(s: &mut String, n: u128)
    ensures
        final(s)@ == old(s)@ + decimal(n as nat),
    decreases n,
{
    if n >= 10 {
        push_decimal(s, n / 10);
    }
    push_digit(s, (n % 10) as u8);
    proof {
        assert(s@ =~= old(s)@ + decimal(n as nat));
    }
}

/// A number written in decimal.
pub fn decimal_text(n: u128) -> (s: String)
    ensures
        s@ == decimal(n as nat),
{
    let mut s = String::new();
    push_decimal(&mut s, n);
    proof {
        assert(s@ =~= decimal(n as nat));
    }
    s
}

} // verus!
