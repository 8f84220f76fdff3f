use vstd::prelude::*;

verus! {

/// The ten decimal digits, in order of value.
pub open spec fn digits() -> Seq<char> {
    seq!['0', '1', '2', '3', '4', '5', '6', '7', '8', '9']
}

/// The usual decimal spelling of `n`: no sign, no leading zeros, `"0"` for zero.
pub open spec fn decimal(n: nat) -> Seq<char>
    decreases n,
{
    if n < 10 {
        seq![digits()[n as int]]
    } else {
        decimal(n / 10).push(digits()[(n % 10) as int])
    }
}

/// `n` in decimal, left-padded with zeros to at least `width` characters.
pub open spec fn zero_padded(n: nat, width: nat) -> Seq<char>
    decreases width,
{
    if decimal(n).len() >= width {
        decimal(n)
    } else {
        seq!['0'] + zero_padded(n, (width - 1) as nat)
    }
}

/// A number below one thousand takes at most three digits.
pub proof fn lemma_decimal_short(n: nat)
    requires
        n < 1000,
    ensures
        1 <= decimal(n).len() <= 3,
{
    reveal_with_fuel(decimal, 3);
}

/// A decimal spelling holds digits only.
pub proof fn lemma_decimal_digits(n: nat)
    ensures
        forall|i: int| 0 <= i < decimal(n).len() ==> digits().contains(#[trigger] decimal(n)[i]),
    decreases n,
{
    if n >= 10 {
        lemma_decimal_digits(n / 10);
        assert(digits()[(n % 10) as int] == digits()[(n % 10) as int]);
        assert forall|i: int| 0 <= i < decimal(n).len() implies digits().contains(
            #[trigger] decimal(n)[i],
        ) by {
            if i < decimal(n / 10).len() {
                assert(decimal(n)[i] == decimal(n / 10)[i]);
            } else {
                assert(decimal(n)[i] == digits()[(n % 10) as int]);
            }
        }
    } else {
        assert(decimal(n)[0] == digits()[n as int]);
    }
}

/// The one-character string of the digit `d`.
fn digit_str(d: u64) -> (r: &'static str)
    requires
        d < 10,
    ensures
        r@ == seq![digits()[d as int]],
{
    proof {
        reveal_strlit("0");
        reveal_strlit("1");
        reveal_strlit("2");
        reveal_strlit("3");
        reveal_strlit("4");
        reveal_strlit("5");
        reveal_strlit("6");
        reveal_strlit("7");
        reveal_strlit("8");
        reveal_strlit("9");
    }
    match d {
        0 => "0",
        1 => "1",
        2 => "2",
        3 => "3",
        4 => "4",
        5 => "5",
        6 => "6",
        7 => "7",
        8 => "8",
        _ => "9",
    }
}

/// Appends the decimal spelling of `n` to `s`.
pub fn push_decimal(s: &mut String, n: u64)
    ensures
        final(s)@ == old(s)@ + decimal(n as nat),
    decreases n,
{
    if n >= 10 {
        push_decimal(s, n / 10);
    }
    let d = digit_str(n % 10);
    s.append(d);
    assert(final(s)@ =~= old(s)@ + decimal(n as nat));
}

/// Appends `n` in decimal, left-padded with zeros to at least `width` characters.
pub fn push_zero_padded(s: &mut String, n: u64, width: usize)
    ensures
        final(s)@ == old(s)@ + zero_padded(n as nat, width as nat),
{
    let mut spelled = String::new();
    push_decimal(&mut spelled, n);
    let digits_len: usize = spelled.as_str().unicode_len();
    assert(spelled@ =~= decimal(n as nat));
    let mut pad: usize = 0;
    let ghost start = s@;
    let zeros_needed: usize = if width > digits_len { width - digits_len } else { 0 };
    while pad < zeros_needed
        invariant
            pad <= zeros_needed,
            s@ == start + Seq::new(pad as nat, |i: int| '0'),
        decreases zeros_needed - pad,
    {
        proof {
            reveal_strlit("0");
        }
        s.append("0");
        pad += 1;
        assert(s@ =~= start + Seq::new(pad as nat, |i: int| '0'));
    }
    proof {
        lemma_zero_padded(n as nat, width as nat);
    }
    s.append(spelled.as_str());
    assert(s@ =~= start + zero_padded(n as nat, width as nat));
}

/// Padding adds exactly as many zeros as the spelling falls short of the width.
proof fn lemma_zero_padded(n: nat, width: nat)
    ensures
        zero_padded(n, width) == Seq::new(
            if width > decimal(n).len() { (width - decimal(n).len()) as nat } else { 0 },
            |i: int| '0',
        ) + decimal(n),
    decreases width,
{
    if decimal(n).len() < width {
        lemma_zero_padded(n, (width - 1) as nat);
        assert(zero_padded(n, width) =~= Seq::new(
            (width - decimal(n).len()) as nat,
            |i: int| '0',
        ) + decimal(n));
    } else {
        assert(zero_padded(n, width) =~= Seq::new(0, |i: int| '0') + decimal(n));
    }
}

} // verus!
