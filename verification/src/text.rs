//! Text as the file formats hold it: trimmed, encoded as UTF-8, and numbers
//! written in decimal.
use vstd::prelude::*;
use vstd::string::{StrSliceExecFns, StringExecFns};
use vstd::utf8::{decode_utf8, valid_utf8};

verus! {

/// What `str::trim` returns for a text: the text without the white space at
/// its two ends.
pub uninterp spec fn trimmed(text: Seq<char>) -> Seq<char>;

/// What `String::from_utf8_lossy` makes of bytes that are not valid UTF-8.
pub uninterp spec fn lossy_text(bytes: Seq<u8>) -> Seq<char>;

/// The text that a run of bytes stands for: the bytes decoded as UTF-8, with
/// what is not UTF-8 replaced as the standard library replaces it.
pub open spec fn text_of_bytes(bytes: Seq<u8>) -> Seq<char> {
    if valid_utf8(bytes) {
        decode_utf8(bytes)
    } else {
        lossy_text(bytes)
    }
}

/// Whether `part` is one run of characters of `text`.
pub open spec fn is_run_of(part: Seq<char>, text: Seq<char>) -> bool {
    exists|i: int, j: int| 0 <= i <= j <= text.len() && part == text.subrange(i, j)
}

/// Calls `str::trim`.
///
/// Trusted: the contract names the result, and claims of it that it is one
/// run of characters of the text and that trimming it again changes nothing.
#[verifier::external_body]
pub(crate) fn trim(text: &str) -> (inner: &str)
    ensures
        inner@ == trimmed(text@),
        trimmed(inner@) == inner@,
        is_run_of(inner@, text@),
{
    text.trim()
}

/// Whether a text has no white space at its ends, that is, whether trimming
/// leaves it as it is.
pub fn is_trimmed(text: &str) -> (yes: bool)
    ensures
        yes == (trimmed(text@) == text@),
        trimmed(trimmed(text@)) == trimmed(text@),
{
    let inner = trim(text);
    let yes = inner.unicode_len() == text.unicode_len();
    proof {
        let (i, j) = choose|i: int, j: int|
            0 <= i <= j <= text@.len() && inner@ == text@.subrange(i, j);
        assert(0 <= i <= j <= text@.len() && inner@ == text@.subrange(i, j));
        if yes {
            assert(i == 0 && j == text@.len());
            assert(text@.subrange(0, text@.len() as int) =~= text@);
        }
    }
    yes
}

/// Calls `String::from_utf8_lossy`.
///
/// Trusted: the contract claims that valid UTF-8 is decoded as it stands, and
/// names the result for all other bytes.
#[verifier::external_body]
pub(crate) fn utf8_lossy(bytes: &[u8]) -> (text: String)
    ensures
        valid_utf8(bytes@) ==> text@ == decode_utf8(bytes@),
        !valid_utf8(bytes@) ==> text@ == lossy_text(bytes@),
{
    String::from_utf8_lossy(bytes).into_owned()
}

/// The character of one decimal digit.
pub open spec fn digit_char(digit: nat) -> char
    recommends
        digit < 10,
{
    if digit == 0 {
        '0'
    } else if digit == 1 {
        '1'
    } else if digit == 2 {
        '2'
    } else if digit == 3 {
        '3'
    } else if digit == 4 {
        '4'
    } else if digit == 5 {
        '5'
    } else if digit == 6 {
        '6'
    } else if digit == 7 {
        '7'
    } else if digit == 8 {
        '8'
    } else {
        '9'
    }
}

/// A number written in decimal, without leading zeros.
pub open spec fn decimal(n: nat) -> Seq<char>
    decreases n,
{
    if n < 10 {
        seq![digit_char(n)]
    } else {
        decimal(n / 10).push(digit_char(n % 10))
    }
}

fn digit_str(digit: u64) -> (text: &'static str)
    requires
        digit < 10,
    ensures
        text@ == seq![digit_char(digit as nat)],
{
    proof {
        reveal_strlit("0");
        reveal_strlit("1");
        reveal_strlit("2");
        reveal_strlit("3");
        reveal_strlit("4");
        reveal_strlit("5");
        reveal_strlit("6");
        reveal_strlit("7");
        reveal_strlit("8");
        reveal_strlit("9");
    }
    let text = if digit == 0 {
        "0"
    } else if digit == 1 {
        "1"
    } else if digit == 2 {
        "2"
    } else if digit == 3 {
        "3"
    } else if digit == 4 {
        "4"
    } else if digit == 5 {
        "5"
    } else if digit == 6 {
        "6"
    } else if digit == 7 {
        "7"
    } else if digit == 8 {
        "8"
    } else {
        "9"
    };
    assert(text@ =~= seq![digit_char(digit as nat)]);
    text
}

/// Appends a number in decimal to a text.
pub fn push_decimal(out: &mut String, n: u64)
    ensures
        final(out)@ == old(out)@ + decimal(n as nat),
    decreases n,
{
    if n >= 10 {
        push_decimal(out, n / 10);
    }
    out.append(digit_str(n % 10));
    assert(out@ =~= old(out)@ + decimal(n as nat));
}

} // verus!
