use vstd::prelude::*;

verus! {

/// Whether `b` is a decimal digit.
pub open spec fn is_digit(b: u8) -> bool {
    48 <= b <= 57
}

/// How many decimal digits stand in `s` from position `i` on without a break.
pub open spec fn digit_run(s: Seq<u8>, i: int) -> int
    decreases s.len() - i,
{
    if 0 <= i < s.len() && is_digit(s[i]) {
        1 + digit_run(s, i + 1)
    } else {
        0
    }
}

/// The text `inf`.
pub open spec fn infinity_text() -> Seq<u8> {
    seq![105u8, 110u8, 102u8]
}

/// The text `NaN`.
pub open spec fn not_a_number_text() -> Seq<u8> {
    seq![78u8, 97u8, 78u8]
}

/// Whether `s` is a magnitude: `inf`, `NaN`, or digits with at most one point
/// among them and at least one digit in all.
pub open spec fn is_magnitude(s: Seq<u8>) -> bool {
    let whole = digit_run(s, 0);
    let pointed = whole < s.len() && s[whole] == 46u8;
    let fraction = if pointed {
        digit_run(s, whole + 1)
    } else {
        0
    };
    let end = if pointed {
        whole + 1 + fraction
    } else {
        whole
    };
    s == infinity_text() || s == not_a_number_text() || (whole + fraction > 0 && end == s.len())
}

/// Whether `s` has a sign in front.
pub open spec fn is_signed(s: Seq<u8>) -> bool {
    s.len() > 0 && (s[0] == 45u8 || s[0] == 43u8)
}

/// Whether `s` is a number as a parameter file writes it: an optional sign,
/// then a magnitude.
pub open spec fn is_numeral(s: Seq<u8>) -> bool {
    if is_signed(s) {
        is_magnitude(s.subrange(1, s.len() as int))
    } else {
        is_magnitude(s)
    }
}

/// Whether `b` can occur in a numeral.
pub open spec fn is_numeral_byte(b: u8) -> bool {
    is_digit(b) || b == 43u8 || b == 45u8 || b == 46u8 || b == 78u8 || b == 97u8 || b == 102u8
        || b == 105u8 || b == 110u8
}

/// A run of digits holds digits only and stays inside the text.
pub proof fn lemma_digit_run(s: Seq<u8>, i: int)
    requires
        0 <= i <= s.len(),
    ensures
        0 <= digit_run(s, i) <= s.len() - i,
        forall|j: int| i <= j < i + digit_run(s, i) ==> is_digit(s[j]),
    decreases s.len() - i,
{
    if i < s.len() && is_digit(s[i]) {
        lemma_digit_run(s, i + 1);
    }
}

/// A magnitude is not empty and is written with numeral bytes only.
pub proof fn lemma_magnitude_bytes(s: Seq<u8>)
    requires
        is_magnitude(s),
    ensures
        s.len() > 0,
        forall|j: int| 0 <= j < s.len() ==> is_numeral_byte(#[trigger] s[j]),
{
    if s == infinity_text() || s == not_a_number_text() {
    } else {
        lemma_digit_run(s, 0);
        let whole = digit_run(s, 0);
        if whole < s.len() && s[whole] == 46u8 {
            lemma_digit_run(s, whole + 1);
        }
    }
}

/// A numeral is not empty and is written with numeral bytes only.
pub proof fn lemma_numeral_bytes(s: Seq<u8>)
    requires
        is_numeral(s),
    ensures
        s.len() > 0,
        forall|j: int| 0 <= j < s.len() ==> is_numeral_byte(#[trigger] s[j]),
{
    if is_signed(s) {
        let rest = s.subrange(1, s.len() as int);
        lemma_magnitude_bytes(rest);
        assert forall|j: int| 0 <= j < s.len() implies is_numeral_byte(#[trigger] s[j]) by {
            if j > 0 {
                assert(s[j] == rest[j - 1]);
            }
        }
    } else {
        lemma_magnitude_bytes(s);
    }
}

/// Counts the digits that stand in `text` from `from` on without a break.
fn count_digits(text: &[u8], from: usize) -> (count: usize)
    requires
        from <= text@.len(),
    ensures
        count == digit_run(text@, from as int),
        from + count <= text@.len(),
{
    let mut i: usize = from;
    while i < text.len() && text[i] >= 48u8 && text[i] <= 57u8
        invariant
            from <= i <= text@.len(),
            digit_run(text@, from as int) == (i - from) + digit_run(text@, i as int),
        decreases text@.len() - i,
    {
        i += 1;
    }
    i - from
}

/// Whether `text`, from `from` to its end, is a magnitude.
fn magnitude_from(text: &[u8], from: usize) -> (ok: bool)
    requires
        from <= text@.len(),
    ensures
        ok == is_magnitude(text@.subrange(from as int, text@.len() as int)),
{
    let n: usize = text.len();
    let ghost s = text@.subrange(from as int, n as int);
    let len: usize = n - from;
    if len == 3 {
        let a: u8 = text[from];
        let b: u8 = text[from + 1];
        let c: u8 = text[from + 2];
        proof {
            assert(s[0] == a && s[1] == b && s[2] == c);
        }
        if a == 105u8 && b == 110u8 && c == 102u8 {
            assert(s =~= infinity_text());
            return true;
        }
        if a == 78u8 && b == 97u8 && c == 78u8 {
            assert(s =~= not_a_number_text());
            return true;
        }
    }
    proof {
        assert(s != infinity_text() && s != not_a_number_text()) by {
            if s == infinity_text() || s == not_a_number_text() {
                assert(s.len() == 3);
                assert(s[0] == text@[from as int]);
                assert(s[1] == text@[from + 1]);
                assert(s[2] == text@[from + 2]);
            }
        }
        lemma_digit_run_shift(text@, from as int, from as int);
    }
    let whole: usize = count_digits(text, from);
    let p: usize = from + whole;
    if p < n && text[p] == 46u8 {
        proof {
            lemma_digit_run_shift(text@, from as int, p + 1);
            assert(s[whole as int] == text@[p as int]);
        }
        let fraction: usize = count_digits(text, p + 1);
        whole + fraction > 0 && p + 1 + fraction == n
    } else {
        proof {
            if p < n {
                assert(s[whole as int] == text@[p as int]);
            }
        }
        whole > 0 && p == n
    }
}

/// A run of digits is the same run in the tail of the text that starts at `from`.
pub proof fn lemma_digit_run_shift(s: Seq<u8>, from: int, i: int)
    requires
        0 <= from <= i <= s.len(),
    ensures
        digit_run(s.subrange(from, s.len() as int), i - from) == digit_run(s, i),
    decreases s.len() - i,
{
    let t = s.subrange(from, s.len() as int);
    if i < s.len() {
        assert(t[i - from] == s[i]);
        if is_digit(s[i]) {
            lemma_digit_run_shift(s, from, i + 1);
        }
    }
}

/// Whether `text` is a numeral.
pub fn is_numeral_text(text: &[u8]) -> (ok: bool)
    ensures
        ok == is_numeral(text@),
{
    if text.len() > 0 && (text[0] == 45u8 || text[0] == 43u8) {
        magnitude_from(text, 1)
    } else {
        proof {
            assert(text@.subrange(0, text@.len() as int) =~= text@);
        }
        magnitude_from(text, 0)
    }
}

} // verus!
