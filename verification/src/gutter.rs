use vstd::prelude::*;

verus! {

/// The number of blank columns around the line number in the gutter.
pub const SPACES_IN_LINE_SECTION: u32 = 2;

/// The decimal digit `d` as a character.
pub open spec fn digit_char(d: nat) -> char {
    if d == 0 {
        '0'
    } else if d == 1 {
        '1'
    } else if d == 2 {
        '2'
    } else if d == 3 {
        '3'
    } else if d == 4 {
        '4'
    } else if d == 5 {
        '5'
    } else if d == 6 {
        '6'
    } else if d == 7 {
        '7'
    } else if d == 8 {
        '8'
    } else {
        '9'
    }
}

/// The decimal representation of `n`, most significant digit first.
pub open spec fn dec_rep(n: nat) -> Seq<char>
    decreases n,
{
    if n < 10 {
        seq![digit_char(n)]
    } else {
        dec_rep(n / 10).push(digit_char(n % 10))
    }
}

/// Ten to the `k`.
pub open spec fn pow10(k: nat) -> nat
    decreases k,
{
    if k == 0 {
        1nat
    } else {
        10 * pow10((k - 1) as nat)
    }
}

proof fn lemma_pow10_mono(a: nat, b: nat)
    requires
        a <= b,
    ensures
        pow10(a) <= pow10(b),
    decreases b,
{
    if a < b {
        lemma_pow10_mono(a, (b - 1) as nat);
        assert(pow10((b - 1) as nat) >= 1) by {
            lemma_pow10_mono(0, (b - 1) as nat);
        }
    }
}

/// Relies on String::push: appends exactly the one character.
#[verifier::external_body]
pub(crate) fn push_char(s: &mut String, c: char)
    ensures
        final(s)@ == old(s)@.push(c),
{
    s.push(c);
}

fn digit_of(d: u64) -> (c: char)
    requires
        d < 10,
    ensures
        c == digit_char(d as nat),
{
    if d == 0 {
        '0'
    } else if d == 1 {
        '1'
    } else if d == 2 {
        '2'
    } else if d == 3 {
        '3'
    } else if d == 4 {
        '4'
    } else if d == 5 {
        '5'
    } else if d == 6 {
        '6'
    } else if d == 7 {
        '7'
    } else if d == 8 {
        '8'
    } else {
        '9'
    }
}

/// Appends the decimal representation of `n`.
pub fn push_dec(n: u64, s: &mut String)
    ensures
        final(s)@ == old(s)@ + dec_rep(n as nat),
    decreases n,
{
    if n >= 10 {
        push_dec(n / 10, s);
        push_char(s, digit_of(n % 10));
        proof {
            assert(s@ =~= old(s)@ + dec_rep(n as nat));
        }
    } else {
        push_char(s, digit_of(n));
        proof {
            assert(s@ =~= old(s)@ + dec_rep(n as nat));
        }
    }
}

fn count_digits_rec(n: u64) -> (r: usize)
    ensures
        r == dec_rep(n as nat).len(),
        1 <= r <= 20,
        r == 1 || pow10((r - 1) as nat) <= n as nat,
    decreases n,
{
    if n < 10 {
        1
    } else {
        let inner = count_digits_rec(n / 10);
        proof {
            assert(pow10(inner as nat) <= n as nat) by {
                if inner == 1 {
                    assert(pow10(1nat) == 10) by {
                        reveal_with_fuel(pow10, 3);
                    }
                } else {
                    assert(pow10((inner - 1) as nat) <= (n / 10) as nat);
                    assert(pow10(inner as nat) == 10 * pow10((inner - 1) as nat));
                    assert(10 * ((n as nat) / 10) <= n as nat);
                }
            }
            if inner >= 20 {
                assert(pow10(20nat) <= pow10(inner as nat)) by {
                    lemma_pow10_mono(20nat, inner as nat);
                }
                assert(pow10(20nat) == 100000000000000000000) by {
                    reveal_with_fuel(pow10, 21);
                }
            }
        }
        inner + 1
    }
}

/// The number of decimal digits of `n`.
pub fn count_digits(n: u64) -> (r: usize)
    ensures
        r == dec_rep(n as nat).len(),
        1 <= r <= 20,
{
    count_digits_rec(n)
}

/// `n` spaces.
pub open spec fn spaces(n: nat) -> Seq<char> {
    Seq::new(n, |i: int| ' ')
}

/// The gutter text for a line: one space, the line number (blank when the
/// line carries none), padded on the right to the number width, and one more
/// space.
pub open spec fn spec_line_section_text(ln: Option<usize>, width: int) -> Seq<char> {
    let body = match ln {
        Some(l) => dec_rep(l as nat),
        None => Seq::<char>::empty(),
    };
    let pad = if width - 2 >= body.len() {
        (width - 2 - body.len()) as nat
    } else {
        0nat
    };
    seq![' '] + body + spaces(pad) + seq![' ']
}

/// Builds the gutter text for a line; also returns its length in characters.
pub fn build_line_section(ln: &Option<usize>, width: u32) -> (r: (String, usize))
    requires
        3 <= width <= 22,
    ensures
        r.0@ == spec_line_section_text(*ln, width as int),
        r.1 == r.0@.len(),
        r.1 <= 24,
{
    let body_width: usize = (width - 2) as usize;
    let mut s = String::new();
    push_char(&mut s, ' ');
    let dlen: usize = match ln {
        Some(l) => {
            push_dec(*l as u64, &mut s);
            count_digits(*l as u64)
        },
        None => 0,
    };
    proof {
        assert(usize::MAX >= u32::MAX);
    }
    let mut padded: usize = 0;
    let pad: usize = if dlen < body_width {
        body_width - dlen
    } else {
        0
    };
    while padded < pad
        invariant
            padded <= pad,
            pad <= 20,
            s@ == seq![' '] + (match ln {
                Some(l) => dec_rep(l as nat),
                None => Seq::<char>::empty(),
            }) + spaces(padded as nat),
        decreases pad - padded,
    {
        push_char(&mut s, ' ');
        padded = padded + 1;
        proof {
            assert(s@ =~= seq![' '] + (match ln {
                Some(l) => dec_rep(l as nat),
                None => Seq::<char>::empty(),
            }) + spaces(padded as nat));
        }
    }
    push_char(&mut s, ' ');
    let total: usize = 2 + dlen + pad;
    proof {
        assert(s@ =~= spec_line_section_text(*ln, width as int));
        assert(s@.len() == total);
    }
    (s, total)
}

} // verus!
