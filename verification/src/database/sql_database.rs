//! What the library decides of the rows of the line database.

use vstd::prelude::*;

verus! {

/// Why an operation on the line database failed.
#[derive(Debug, Clone)]
pub struct SQLError;

impl SQLError {
    /// The message that describes the error.
    pub fn message(&self) -> (text: String)
        ensures
            text@ == "invalid sql transaction or connection"@,
    {
        "invalid sql transaction or connection".to_owned()
    }
}

/// The decimal digit for `d`.
pub open spec fn digit_char(d: nat) -> char {
    if d == 0 {
        '0'
    } else if d == 1 {
        '1'
    } else if d == 2 {
        '2'
    } else if d == 3 {
        '3'
    } else if d == 4 {
        '4'
    } else if d == 5 {
        '5'
    } else if d == 6 {
        '6'
    } else if d == 7 {
        '7'
    } else if d == 8 {
        '8'
    } else {
        '9'
    }
}

/// The decimal notation of `n`, without leading zeros.
pub open spec fn decimal(n: nat) -> Seq<char>
    decreases n,
{
    if n < 10 {
        seq![digit_char(n)]
    } else {
        decimal(n / 10).push(digit_char(n % 10))
    }
}

/// The number that a text of decimal digits stands for: each digit's value
/// times ten to the power of its place from the right.
pub open spec fn digits_value(text: Seq<char>) -> int
    decreases text.len(),
{
    if text.len() == 0 {
        0
    } else {
        digits_value(text.drop_last()) * 10 + (text.last() as int - '0' as int)
    }
}

/// The decimal notation of `n` reads back as `n`: it is made of the digits
/// `'0'` to `'9'`, it begins with `'0'` only where it is `"0"`, and its digits
/// weighted by powers of ten add up to `n`.
pub proof fn lemma_decimal_reads_back(n: nat)
    ensures
        decimal(n).len() > 0,
        forall|i: int| 0 <= i < decimal(n).len() ==> '0' <= #[trigger] decimal(n)[i] <= '9',
        decimal(n)[0] == '0' ==> n == 0,
        digits_value(decimal(n)) == n,
    decreases n,
{
    if n >= 10 {
        lemma_decimal_reads_back(n / 10);
        let d = decimal(n);
        assert(d.drop_last() =~= decimal(n / 10));
        assert(d[0] == decimal(n / 10)[0]);
        assert forall|i: int| 0 <= i < d.len() implies '0' <= #[trigger] d[i] <= '9' by {
            if i < d.len() - 1 {
                assert(d[i] == decimal(n / 10)[i]);
            }
        }
        lemma_digit_value(n % 10);
        assert(d.last() == digit_char(n % 10));
        assert(digits_value(d) == digits_value(decimal(n / 10)) * 10 + (n % 10) as int);
        assert(n == (n / 10) * 10 + n % 10);
    } else {
        lemma_digit_value(n);
        assert(decimal(n) =~= seq![digit_char(n)]);
        assert(seq![digit_char(n)].drop_last() =~= Seq::<char>::empty());
        assert(digits_value(Seq::<char>::empty()) == 0);
    }
}

/// The digit for `d` stands for `d`.
proof fn lemma_digit_value(d: nat)
    requires
        d < 10,
    ensures
        digit_char(d) as int - '0' as int == d,
        '0' <= digit_char(d) <= '9',
{
    assert('0' as int == 48 && '1' as int == 49 && '2' as int == 50 && '3' as int == 51 && '4' as int
        == 52 && '5' as int == 53 && '6' as int == 54 && '7' as int == 55 && '8' as int == 56
        && '9' as int == 57);
}

/// The decimal digit for `d`, as a text of one character.
fn digit_text(d: usize) -> (text: &'static str)
    requires
        d < 10,
    ensures
        text@ == seq![digit_char(d as nat)],
{
    if d == 0 {
        proof { reveal_strlit("0"); }
        "0"
    } else if d == 1 {
        proof { reveal_strlit("1"); }
        "1"
    } else if d == 2 {
        proof { reveal_strlit("2"); }
        "2"
    } else if d == 3 {
        proof { reveal_strlit("3"); }
        "3"
    } else if d == 4 {
        proof { reveal_strlit("4"); }
        "4"
    } else if d == 5 {
        proof { reveal_strlit("5"); }
        "5"
    } else if d == 6 {
        proof { reveal_strlit("6"); }
        "6"
    } else if d == 7 {
        proof { reveal_strlit("7"); }
        "7"
    } else if d == 8 {
        proof { reveal_strlit("8"); }
        "8"
    } else {
        proof { reveal_strlit("9"); }
        "9"
    }
}

/// The characters of a sequence of decimal digits.
pub open spec fn chars_of(digits: Seq<usize>) -> Seq<char> {
    digits.map_values(|d: usize| digit_char(d as nat))
}

/// The label stored with a line in the database: the decimal notation of
/// the line's id.
pub fn label_text(id: usize) -> (label: String)
    ensures
        label@ == decimal(id as nat),
{
    let mut digits: Vec<usize> = Vec::new();
    let mut rest: usize = id;
    loop
        invariant_except_break
            decimal(id as nat) == decimal(rest as nat) + chars_of(digits@).reverse(),
        invariant
            forall|i: int| 0 <= i < digits@.len() ==> #[trigger] digits@[i] < 10,
        ensures
            decimal(id as nat) == chars_of(digits@).reverse(),
            forall|i: int| 0 <= i < digits@.len() ==> #[trigger] digits@[i] < 10,
        decreases rest,
    {
        let d = rest % 10;
        let ghost before = chars_of(digits@);
        digits.push(d);
        proof {
            assert(chars_of(digits@) =~= before.push(digit_char(d as nat)));
            assert(chars_of(digits@).reverse() =~= seq![digit_char(d as nat)] + before.reverse());
        }
        if rest < 10 {
            assert(decimal(rest as nat) =~= seq![digit_char(d as nat)]);
            break ;
        }
        proof {
            assert(decimal(rest as nat) == decimal((rest / 10) as nat).push(digit_char(d as nat)));
            assert(decimal(rest as nat) + before.reverse() =~= decimal((rest / 10) as nat)
                + chars_of(digits@).reverse());
        }
        rest = rest / 10;
    }
    let mut label = String::new();
    let mut k: usize = digits.len();
    let ghost reversed = chars_of(digits@).reverse();
    while k > 0
        invariant
            k <= digits@.len(),
            reversed == chars_of(digits@).reverse(),
            forall|i: int| 0 <= i < digits@.len() ==> #[trigger] digits@[i] < 10,
            label@ == reversed.take(digits@.len() - k),
        decreases k,
    {
        k = k - 1;
        label.append(digit_text(digits[k]));
        assert(reversed.take(digits@.len() - k) =~= reversed.take(digits@.len() - k - 1).push(
            digit_char(digits@[k as int] as nat),
        ));
    }
    assert(reversed.take(digits@.len() as int) =~= reversed);
    label
}

} // verus!
