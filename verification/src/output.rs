use vstd::prelude::*;

verus! {

/// The decimal digit character of `d`, for `0 <= d < 10`.
pub open spec fn digit_char(d: int) -> char {
    (48 + d) as char
}

/// The decimal representation of `n`, most significant digit first, with no
/// leading zeros (`0` is written `"0"`).
pub open spec fn decimal(n: nat) -> Seq<char>
    decreases n,
{
    if n < 10 {
        seq![digit_char(n as int)]
    } else {
        decimal(n / 10).push(digit_char((n % 10) as int))
    }
}

/// The decimal representation of `n`, left-padded with `'0'` to at least
/// `width` characters (the formatting `{:0width$}` of an unsigned integer).
pub open spec fn zero_padded(n: nat, width: nat) -> Seq<char> {
    let d = decimal(n);
    if d.len() < width {
        Seq::new((width - d.len()) as nat, |i: int| '0') + d
    } else {
        d
    }
}

/// The path of the output file of frame `frame_id` in directory `out_path`:
/// `<out_path>/A<frame_id, zero-padded to 8 digits>.json`.
pub open spec fn frame_file_path(out_path: Seq<char>, frame_id: nat) -> Seq<char> {
    out_path + seq!['/', 'A'] + zero_padded(frame_id, 8) + seq!['.', 'j', 's', 'o', 'n']
}

/// The number that a string of decimal digits denotes.
pub open spec fn digits_value(s: Seq<char>) -> int
    decreases s.len(),
{
    if s.len() == 0 {
        0
    } else {
        10 * digits_value(s.drop_last()) + (s.last() as int - 48)
    }
}

proof fn lemma_decimal_value(n: nat)
    ensures
        digits_value(decimal(n)) == n,
        decimal(n).len() >= 1,
    decreases n,
{
    let d = (n % 10) as int;
    assert(0 <= d < 10);
    assert(digit_char(d) as int == 48 + d);
    if n >= 10 {
        lemma_decimal_value(n / 10);
        assert(decimal(n).drop_last() =~= decimal(n / 10));
        assert(decimal(n).last() == digit_char(d));
        assert(digits_value(decimal(n)) == 10 * digits_value(decimal(n / 10)) + d);
        assert(n == 10 * (n / 10) + d);
    } else {
        assert(decimal(n) =~= seq![digit_char(d)]);
        assert(decimal(n).drop_last() =~= Seq::<char>::empty());
        assert(digits_value(decimal(n)) == 10 * digits_value(Seq::<char>::empty()) + d);
    }
}

proof fn lemma_leading_zeros_value(k: nat, d: Seq<char>)
    ensures
        digits_value(Seq::new(k, |i: int| '0') + d) == digits_value(d),
    decreases d.len(), k,
{
    let z = Seq::new(k, |i: int| '0');
    if d.len() == 0 {
        assert(z + d =~= z);
        if k > 0 {
            assert(z.drop_last() =~= Seq::new((k - 1) as nat, |i: int| '0'));
            lemma_leading_zeros_value((k - 1) as nat, d);
            assert(Seq::new((k - 1) as nat, |i: int| '0') + d =~= Seq::new((k - 1) as nat, |i: int| '0'));
        }
    } else {
        assert((z + d).drop_last() =~= z + d.drop_last());
        lemma_leading_zeros_value(k, d.drop_last());
    }
}

/// A zero-padded decimal representation denotes the number it represents.
pub proof fn lemma_zero_padded_value(n: nat, width: nat)
    ensures
        digits_value(zero_padded(n, width)) == n,
{
    lemma_decimal_value(n);
    if decimal(n).len() < width {
        lemma_leading_zeros_value((width - decimal(n).len()) as nat, decimal(n));
    }
}

/// Whether `c` is one of the decimal digit characters `'0'..='9'`.
pub open spec fn is_decimal_digit(c: char) -> bool {
    48 <= c as int <= 57
}

proof fn lemma_decimal_digits(n: nat)
    ensures
        decimal(n).len() >= 1,
        forall|i: int| 0 <= i < decimal(n).len() ==> is_decimal_digit(#[trigger] decimal(n)[i]),
        n >= 1 ==> decimal(n)[0] != '0',
    decreases n,
{
    let d = (n % 10) as int;
    assert(digit_char(d) as int == 48 + d);
    if n >= 10 {
        lemma_decimal_digits(n / 10);
        let prev = decimal(n / 10);
        assert(decimal(n) == prev.push(digit_char(d)));
        assert forall|i: int| 0 <= i < decimal(n).len() implies is_decimal_digit(#[trigger] decimal(n)[i]) by {
            if i < prev.len() {
                assert(decimal(n)[i] == prev[i]);
            }
        }
        assert(decimal(n)[0] == prev[0]);
    } else {
        assert(decimal(n) =~= seq![digit_char(d)]);
        assert(decimal(n)[0] == digit_char(d));
        if n >= 1 {
            assert(digit_char(d) as int != 48);
        }
    }
}

/// The zero-padded rendering of `n` at `width` is the std rendering
/// `{:0width$}`: at least `width` characters, all decimal digits, denoting
/// `n`, and with no leading `'0'` when it is longer than a positive `width`.
pub proof fn lemma_zero_padded_rendering(n: nat, width: nat)
    ensures
        zero_padded(n, width).len() >= width,
        forall|i: int|
            0 <= i < zero_padded(n, width).len() ==> is_decimal_digit(
                #[trigger] zero_padded(n, width)[i],
            ),
        digits_value(zero_padded(n, width)) == n,
        zero_padded(n, width).len() > width >= 1 ==> zero_padded(n, width)[0] != '0',
{
    lemma_decimal_digits(n);
    lemma_zero_padded_value(n, width);
    let d = decimal(n);
    if d.len() < width {
        let z = Seq::new((width - d.len()) as nat, |i: int| '0');
        assert forall|i: int| 0 <= i < zero_padded(n, width).len() implies is_decimal_digit(
            #[trigger] zero_padded(n, width)[i],
        ) by {
            if i < z.len() {
                assert(zero_padded(n, width)[i] == '0');
            } else {
                assert(zero_padded(n, width)[i] == d[i - z.len()]);
            }
        }
    } else if d.len() > 1 {
        assert(n >= 10) by {
            if n < 10 {
                assert(d.len() == 1);
            }
        }
    }
}

/// Different frames are written to different files.
pub proof fn lemma_frame_file_path_injective(out_path: Seq<char>, a: nat, b: nat)
    requires
        frame_file_path(out_path, a) == frame_file_path(out_path, b),
    ensures
        a == b,
{
    let pa = zero_padded(a, 8);
    let pb = zero_padded(b, 8);
    let fa = frame_file_path(out_path, a);
    let start = out_path.len() + 2;
    assert(pa =~= fa.subrange(start as int, fa.len() - 5));
    assert(pb =~= frame_file_path(out_path, b).subrange(start as int, fa.len() - 5));
    lemma_zero_padded_value(a, 8);
    lemma_zero_padded_value(b, 8);
}

/// The one-character string of the digit `d`.
fn digit_str(d: usize) -> (s: &'static str)
    requires
        d < 10,
    ensures
        s@ == seq![digit_char(d as int)],
{
    if d == 0 {
        proof { reveal_strlit("0"); }
        "0"
    } else if d == 1 {
        proof { reveal_strlit("1"); }
        "1"
    } else if d == 2 {
        proof { reveal_strlit("2"); }
        "2"
    } else if d == 3 {
        proof { reveal_strlit("3"); }
        "3"
    } else if d == 4 {
        proof { reveal_strlit("4"); }
        "4"
    } else if d == 5 {
        proof { reveal_strlit("5"); }
        "5"
    } else if d == 6 {
        proof { reveal_strlit("6"); }
        "6"
    } else if d == 7 {
        proof { reveal_strlit("7"); }
        "7"
    } else if d == 8 {
        proof { reveal_strlit("8"); }
        "8"
    } else {
        proof { reveal_strlit("9"); }
        "9"
    }
}

/// The number of decimal digits of `n`.
fn decimal_len(n: usize) -> (len: usize)
    ensures
        len == decimal(n as nat).len(),
        1 <= len <= n + 1,
    decreases n,
{
    if n < 10 {
        1
    } else {
        decimal_len(n / 10) + 1
    }
}

/// Appends the decimal representation of `n` to `s`.
fn push_decimal(s: &mut String, n: usize)
    ensures
        final(s)@ == old(s)@ + decimal(n as nat),
    decreases n,
{
    if n < 10 {
        s.append(digit_str(n));
    } else {
        push_decimal(s, n / 10);
        s.append(digit_str(n % 10));
        proof {
            assert(decimal(n as nat) == decimal((n / 10) as nat).push(digit_char((n % 10) as int)));
        }
    }
    assert(final(s)@ =~= old(s)@ + decimal(n as nat));
}

/// The path of the file that holds the vertex positions of frame
/// `frame_id`, in the output directory `out_path`.
pub fn frame_file_name(out_path: &str, frame_id: usize) -> (path: String)
    ensures
        path@ == frame_file_path(out_path@, frame_id as nat),
        ({
            let o = out_path@.len() as int;
            let digits = path@.subrange(o + 2, path@.len() - 5);
            &&& path@.len() >= o + 2 + 8 + 5
            &&& path@.subrange(0, o) == out_path@
            &&& path@[o] == '/'
            &&& path@[o + 1] == 'A'
            &&& path@.subrange(path@.len() - 5, path@.len() as int) == seq!['.', 'j', 's', 'o', 'n']
            &&& forall|i: int| 0 <= i < digits.len() ==> is_decimal_digit(#[trigger] digits[i])
            &&& digits_value(digits) == frame_id
            &&& digits.len() > 8 ==> digits[0] != '0'
        }),
{
    let mut path = String::from_str(out_path);
    proof { reveal_strlit("/A"); }
    path.append("/A");
    let ghost head = path@;
    let len = decimal_len(frame_id);
    let mut k: usize = len;
    while k < 8
        invariant
            len <= k <= 8 || (len > 8 && k == len),
            len == decimal(frame_id as nat).len(),
            path@ == head + Seq::new((k - len) as nat, |i: int| '0'),
        decreases 8 - k,
    {
        path.append(digit_str(0));
        assert(path@ =~= head + Seq::new((k + 1 - len) as nat, |i: int| '0'));
        k = k + 1;
    }
    push_decimal(&mut path, frame_id);
    proof { reveal_strlit(".json"); }
    path.append(".json");
    assert(path@ =~= frame_file_path(out_path@, frame_id as nat));
    proof {
        let o = out_path@.len() as int;
        let zp = zero_padded(frame_id as nat, 8);
        lemma_zero_padded_rendering(frame_id as nat, 8);
        assert(path@.subrange(o + 2, path@.len() - 5) =~= zp);
        assert(path@.subrange(0, o) =~= out_path@);
        assert(path@.subrange(path@.len() - 5, path@.len() as int) =~= seq!['.', 'j', 's', 'o', 'n']);
    }
    path
}

} // verus!
