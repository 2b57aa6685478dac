use vstd::prelude::*;

verus! {

/// Width of the title and value of each counter line of the summary.
pub const MAX_PADDING: usize = 20;

pub open spec fn digit_char(d: nat) -> char {
    if d == 0 {
        '0'
    } else if d == 1 {
        '1'
    } else if d == 2 {
        '2'
    } else if d == 3 {
        '3'
    } else if d == 4 {
        '4'
    } else if d == 5 {
        '5'
    } else if d == 6 {
        '6'
    } else if d == 7 {
        '7'
    } else if d == 8 {
        '8'
    } else {
        '9'
    }
}

/// The decimal digits of `n`, without leading zeros.
pub open spec fn decimal(n: nat) -> Seq<char>
    decreases n,
{
    if n < 10 {
        seq![digit_char(n)]
    } else {
        decimal(n / 10).push(digit_char(n % 10))
    }
}

pub open spec fn all_digits(s: Seq<char>) -> bool {
    forall|i: int| 0 <= i < s.len() ==> '0' <= #[trigger] s[i] <= '9'
}

pub open spec fn dots(k: nat) -> Seq<char> {
    Seq::new(k, |i: int| '.')
}

/// `s` right-aligned in `width` columns with dots in front; as is when it
/// is at least that wide.
pub open spec fn right_aligned(s: Seq<char>, width: nat) -> Seq<char> {
    if s.len() >= width {
        s
    } else {
        dots((width - s.len()) as nat) + s
    }
}

/// A line of the summary: the title, the counter right-aligned with dots to
/// `MAX_PADDING` columns after it, and a line break.
pub open spec fn stat_line_of(title: Seq<char>, stat: nat) -> Seq<char> {
    title + right_aligned(decimal(stat), (MAX_PADDING - title.len()) as nat) + seq!['\n']
}

proof fn lemma_decimal_digits(n: nat)
    ensures
        all_digits(decimal(n)),
        decimal(n).len() >= 1,
    decreases n,
{
    if n >= 10 {
        lemma_decimal_digits(n / 10);
    }
}

/// Relies on the `Display` impl of `usize` (through `ToString`): the decimal
/// digits of the number.
#[verifier::external_body]
pub(crate) fn decimal_string(n: usize) -> (r: String)
    ensures
        r@ == decimal(n as nat),
{
    n.to_string()
}

/// Relies on pad's `PadStr::pad` with right alignment and no truncation: the
/// result is the string with dots in front; for a string of ASCII digits,
/// one column each, exactly enough of them to fill `width`.
#[verifier::external_body]
fn pad_with_dots(s: &str, width: usize) -> (r: String)
    ensures
        r@.len() >= s@.len(),
        r@.subrange(r@.len() - s@.len(), r@.len() as int) == s@,
        forall|i: int| 0 <= i < r@.len() - s@.len() ==> r@[i] == '.',
        all_digits(s@) ==> r@.len() == (if s@.len() >= width {
            s@.len()
        } else {
            width as nat
        }),
{
    pad::PadStr::pad(s, width, '.', pad::Alignment::Right, false)
}

/// One counter line of the summary.
pub fn stat_line(title: &str, stat: usize) -> (r: String)
    requires
        title@.len() <= MAX_PADDING,
    ensures
        r@ == stat_line_of(title@, stat as nat),
{
    let fill = title.unicode_len();
    let digits = decimal_string(stat);
    let padded = pad_with_dots(digits.as_str(), MAX_PADDING - fill);
    proof {
        lemma_decimal_digits(stat as nat);
        let w = (MAX_PADDING - fill) as nat;
        let k = (padded@.len() - digits@.len()) as int;
        assert(padded@ =~= padded@.subrange(0, k) + padded@.subrange(k, padded@.len() as int));
        if digits@.len() >= w {
            assert(padded@ =~= digits@);
        } else {
            assert(padded@.subrange(0, k) =~= dots((w - digits@.len()) as nat));
        }
        assert(padded@ == right_aligned(digits@, w));
        reveal_strlit("\n");
        assert("\n"@ =~= seq!['\n']);
    }
    let line = title.to_owned().concat(padded.as_str());
    line.concat("\n")
}

} // verus!
