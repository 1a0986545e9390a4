use vstd::prelude::*;

verus! {

/// Confidences are held in thousandths: `1000` is certainty.
pub const FULL_CONFIDENCE: u32 = 1000;

/// The IEEE-754 bit pattern of the confidence 1.0. For non-negative values the
/// order of bit patterns is the numeric order, so raw confidences are compared
/// as these integers.
pub const ONE_BITS: u64 = 4607182418800017408;

/// The decimal digit `d` (taken modulo ten) as a character.
pub open spec fn digit_char(n: nat) -> char {
    let d = n % 10;
    if d == 0 { '0' }
    else if d == 1 { '1' }
    else if d == 2 { '2' }
    else if d == 3 { '3' }
    else if d == 4 { '4' }
    else if d == 5 { '5' }
    else if d == 6 { '6' }
    else if d == 7 { '7' }
    else if d == 8 { '8' }
    else { '9' }
}

/// A confidence of `m` thousandths written with three decimals, e.g. `0.290`.
pub open spec fn millis_text(m: nat) -> Seq<char> {
    seq![
        digit_char(m / 1000),
        '.',
        digit_char(m / 100),
        digit_char(m / 10),
        digit_char(m),
    ]
}

/// Text that is a confidence in [0, 1] written with three decimals.
pub open spec fn is_confidence_text(s: Seq<char>) -> bool {
    exists|m: nat| m <= FULL_CONFIDENCE && s == #[trigger] millis_text(m)
}

/// The number of thousandths that confidence text stands for (0 for other text).
pub open spec fn text_millis(s: Seq<char>) -> nat {
    if is_confidence_text(s) {
        choose|m: nat| m <= FULL_CONFIDENCE && s == #[trigger] millis_text(m)
    } else {
        0
    }
}

/// Distinct confidences in [0, 1] are written differently.
pub proof fn lemma_millis_text_injective(a: nat, b: nat)
    requires
        a <= FULL_CONFIDENCE,
        b <= FULL_CONFIDENCE,
        millis_text(a) == millis_text(b),
    ensures
        a == b,
{
    lemma_digit_char_code(a / 1000);
    lemma_digit_char_code(a / 100);
    lemma_digit_char_code(a / 10);
    lemma_digit_char_code(a);
    lemma_digit_char_code(b / 1000);
    lemma_digit_char_code(b / 100);
    lemma_digit_char_code(b / 10);
    lemma_digit_char_code(b);
    assert(millis_text(a)[0] == millis_text(b)[0]);
    assert(millis_text(a)[2] == millis_text(b)[2]);
    assert(millis_text(a)[3] == millis_text(b)[3]);
    assert(millis_text(a)[4] == millis_text(b)[4]);
    assert(a == 1000 * (a / 1000) + 100 * ((a / 100) % 10) + 10 * ((a / 10) % 10) + a % 10)
        by (nonlinear_arith)
        requires a <= 1000;
    assert(b == 1000 * (b / 1000) + 100 * ((b / 100) % 10) + 10 * ((b / 10) % 10) + b % 10)
        by (nonlinear_arith)
        requires b <= 1000;
    assert((a / 1000) % 10 == a / 1000);
    assert((b / 1000) % 10 == b / 1000);
}

/// Confidence text stands for the thousandths it renders.
pub proof fn lemma_text_millis(m: nat)
    requires
        m <= FULL_CONFIDENCE,
    ensures
        text_millis(millis_text(m)) == m,
{
    assert(is_confidence_text(millis_text(m)));
    let c = text_millis(millis_text(m));
    lemma_millis_text_injective(c, m);
}

fn digit_str(d: u32) -> (r: &'static str)
    ensures
        r@ == seq![digit_char(d as nat)],
{
    let d = d % 10;
    if d == 0 {
        proof { reveal_strlit("0"); }
        "0"
    } else if d == 1 {
        proof { reveal_strlit("1"); }
        "1"
    } else if d == 2 {
        proof { reveal_strlit("2"); }
        "2"
    } else if d == 3 {
        proof { reveal_strlit("3"); }
        "3"
    } else if d == 4 {
        proof { reveal_strlit("4"); }
        "4"
    } else if d == 5 {
        proof { reveal_strlit("5"); }
        "5"
    } else if d == 6 {
        proof { reveal_strlit("6"); }
        "6"
    } else if d == 7 {
        proof { reveal_strlit("7"); }
        "7"
    } else if d == 8 {
        proof { reveal_strlit("8"); }
        "8"
    } else {
        proof { reveal_strlit("9"); }
        "9"
    }
}

/// Writes a confidence of `m` thousandths with three decimals.
pub fn format_millis(m: u32) -> (r: String)
    ensures
        r@ == millis_text(m as nat),
{
    let mut s = String::from_str(digit_str(m / 1000));
    proof { reveal_strlit("."); }
    s.append(".");
    s.append(digit_str(m / 100));
    s.append(digit_str(m / 10));
    s.append(digit_str(m));
    assert(s@ =~= millis_text(m as nat)) by {
        assert((m / 100) as nat == m as nat / 100);
        assert((m / 10) as nat == m as nat / 10);
        assert((m / 1000) as nat == m as nat / 1000);
    }
    s
}

proof fn lemma_digit_char_code(n: nat)
    ensures
        digit_char(n) as u32 == 48 + n % 10,
        '\0' <= digit_char(n) <= '\u{7f}',
{
}

proof fn lemma_code_is_digit_char(c: char, d: nat)
    requires
        d < 10,
        c as u32 == 48 + d,
    ensures
        c == digit_char(d),
{
}

/// The value of a byte that is an ASCII decimal digit.
fn digit_value(b: u8) -> (r: Option<u32>)
    ensures
        r is Some <==> 48 <= b <= 57,
        r matches Some(d) ==> b == 48 + d,
{
    if 48 <= b && b <= 57 {
        Some((b - 48) as u32)
    } else {
        None
    }
}

/// Reads back a confidence written with three decimals: `Some(m)` exactly when
/// the text is the rendering of `m` thousandths for some `m` in [0, 1000].
pub fn parse_millis(s: &String) -> (r: Option<u32>)
    ensures
        r is Some <==> is_confidence_text(s@),
        r matches Some(m) ==> m <= FULL_CONFIDENCE && s@ == millis_text(m as nat),
        r matches Some(m) ==> m as nat == text_millis(s@),
{
    let t = s.as_str();
    proof {
        vstd::string::is_ascii_spec_bytes(t);
        if is_confidence_text(s@) {
            let m = choose|m: nat| m <= FULL_CONFIDENCE && s@ == #[trigger] millis_text(m);
            lemma_digit_char_code(m / 1000);
            lemma_digit_char_code(m / 100);
            lemma_digit_char_code(m / 10);
            lemma_digit_char_code(m);
            assert(m == 1000 * (m / 1000) + 100 * ((m / 100) % 10) + 10 * ((m / 10) % 10) + m % 10)
                by (nonlinear_arith)
                requires m <= 1000;
            assert(vstd::string::is_ascii(t));
        }
    }
    if !t.is_ascii() {
        return None;
    }
    let b = t.as_bytes();
    if b.len() != 5 || b[1] != 46 {
        return None;
    }
    match (digit_value(b[0]), digit_value(b[2]), digit_value(b[3]), digit_value(b[4])) {
        (Some(w), Some(x), Some(y), Some(z)) => {
            let m = w * 1000 + x * 100 + y * 10 + z;
            if m <= FULL_CONFIDENCE {
                proof {
                    let n = m as nat;
                    assert(n / 1000 == w as nat);
                    assert(n / 100 == 10 * w + x);
                    assert(n / 10 == 100 * w + 10 * x + y);
                    lemma_code_is_digit_char(s@[0], (n / 1000) % 10);
                    lemma_code_is_digit_char(s@[2], (n / 100) % 10);
                    lemma_code_is_digit_char(s@[3], (n / 10) % 10);
                    lemma_code_is_digit_char(s@[4], n % 10);
                    assert(s@ =~= millis_text(n));
                    lemma_text_millis(n);
                }
                Some(m)
            } else {
                None
            }
        },
        _ => None,
    }
}

} // verus!
