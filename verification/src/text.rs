use vstd::prelude::*;
use vstd::string::*;
use vstd::utf8::is_ascii_chars;

verus! {

// ---------------------------------------------------------------------------
// Decimal digits
// ---------------------------------------------------------------------------

/// Value of a decimal digit character; 10 marks a character that is no digit.
pub open spec fn spec_digit_val(c: char) -> int {
    if c == '0' {
        0
    } else if c == '1' {
        1
    } else if c == '2' {
        2
    } else if c == '3' {
        3
    } else if c == '4' {
        4
    } else if c == '5' {
        5
    } else if c == '6' {
        6
    } else if c == '7' {
        7
    } else if c == '8' {
        8
    } else if c == '9' {
        9
    } else {
        10
    }
}

pub open spec fn spec_is_digit(c: char) -> bool {
    spec_digit_val(c) < 10
}

/// Value of a decimal digit character; 10 for any other character.
pub fn digit_val(c: char) -> (r: u8)
    ensures
        r as int == spec_digit_val(c),
{
    if c == '0' {
        0
    } else if c == '1' {
        1
    } else if c == '2' {
        2
    } else if c == '3' {
        3
    } else if c == '4' {
        4
    } else if c == '5' {
        5
    } else if c == '6' {
        6
    } else if c == '7' {
        7
    } else if c == '8' {
        8
    } else if c == '9' {
        9
    } else {
        10
    }
}

pub open spec fn spec_digit_char(d: int) -> char {
    if d == 0 {
        '0'
    } else if d == 1 {
        '1'
    } else if d == 2 {
        '2'
    } else if d == 3 {
        '3'
    } else if d == 4 {
        '4'
    } else if d == 5 {
        '5'
    } else if d == 6 {
        '6'
    } else if d == 7 {
        '7'
    } else if d == 8 {
        '8'
    } else {
        '9'
    }
}

fn digit_str(d: u8) -> (r: &'static str)
    requires
        d < 10,
    ensures
        r@ =~= seq![spec_digit_char(d as int)],
{
    if d == 0 {
        proof {
            reveal_strlit("0");
        }
        "0"
    } else if d == 1 {
        proof {
            reveal_strlit("1");
        }
        "1"
    } else if d == 2 {
        proof {
            reveal_strlit("2");
        }
        "2"
    } else if d == 3 {
        proof {
            reveal_strlit("3");
        }
        "3"
    } else if d == 4 {
        proof {
            reveal_strlit("4");
        }
        "4"
    } else if d == 5 {
        proof {
            reveal_strlit("5");
        }
        "5"
    } else if d == 6 {
        proof {
            reveal_strlit("6");
        }
        "6"
    } else if d == 7 {
        proof {
            reveal_strlit("7");
        }
        "7"
    } else if d == 8 {
        proof {
            reveal_strlit("8");
        }
        "8"
    } else {
        proof {
            reveal_strlit("9");
        }
        "9"
    }
}

// ---------------------------------------------------------------------------
// Rendering integers as decimal strings
// ---------------------------------------------------------------------------

/// The decimal digit string of a nonnegative number, most significant first.
pub open spec fn spec_dec_seq(n: nat) -> Seq<char>
    decreases n,
{
    if n < 10 {
        seq![spec_digit_char(n as int)]
    } else {
        spec_dec_seq(n / 10).push(spec_digit_char((n % 10) as int))
    }
}

/// The decimal string of a signed number: a leading '-' for negatives.
pub open spec fn spec_int_seq(i: int) -> Seq<char> {
    if i < 0 {
        seq!['-'] + spec_dec_seq((-i) as nat)
    } else {
        spec_dec_seq(i as nat)
    }
}

pub fn u64_to_string(n: u64) -> (r: String)
    ensures
        r@ == spec_dec_seq(n as nat),
    decreases n,
{
    if n < 10 {
        String::from_str(digit_str(n as u8))
    } else {
        let mut s = u64_to_string(n / 10);
        s.append(digit_str((n % 10) as u8));
        s
    }
}

pub fn i64_to_string(n: i64) -> (r: String)
    ensures
        r@ == spec_int_seq(n as int),
{
    if n >= 0 {
        u64_to_string(n as u64)
    } else {
        let mag: u64 = ((-(n + 1)) as u64) + 1;
        proof {
            reveal_strlit("-");
        }
        let mut s = String::from_str("-");
        let rest = u64_to_string(mag);
        s.append(rest.as_str());
        proof {
            assert(s@ =~= seq!['-'] + spec_dec_seq((-(n as int)) as nat));
        }
        s
    }
}

// ---------------------------------------------------------------------------
// Case normalization
// ---------------------------------------------------------------------------

/// The ASCII upper-case equivalent of a character: the letters 'a' through
/// 'z' map to 'A' through 'Z', every other character stays as it is.
pub open spec fn spec_upper_char(c: char) -> char {
    if c == 'a' {
        'A'
    } else if c == 'b' {
        'B'
    } else if c == 'c' {
        'C'
    } else if c == 'd' {
        'D'
    } else if c == 'e' {
        'E'
    } else if c == 'f' {
        'F'
    } else if c == 'g' {
        'G'
    } else if c == 'h' {
        'H'
    } else if c == 'i' {
        'I'
    } else if c == 'j' {
        'J'
    } else if c == 'k' {
        'K'
    } else if c == 'l' {
        'L'
    } else if c == 'm' {
        'M'
    } else if c == 'n' {
        'N'
    } else if c == 'o' {
        'O'
    } else if c == 'p' {
        'P'
    } else if c == 'q' {
        'Q'
    } else if c == 'r' {
        'R'
    } else if c == 's' {
        'S'
    } else if c == 't' {
        'T'
    } else if c == 'u' {
        'U'
    } else if c == 'v' {
        'V'
    } else if c == 'w' {
        'W'
    } else if c == 'x' {
        'X'
    } else if c == 'y' {
        'Y'
    } else if c == 'z' {
        'Z'
    } else {
        c
    }
}

/// A string with each character mapped to its ASCII upper-case equivalent.
pub open spec fn spec_upper(s: Seq<char>) -> Seq<char> {
    Seq::new(s.len(), |i: int| spec_upper_char(s[i]))
}

/// The normalized form of a ticker symbol: an ASCII string is upper-cased,
/// anything else is left as it is.
pub open spec fn spec_normalized(s: Seq<char>) -> Seq<char> {
    if is_ascii_chars(s) {
        spec_upper(s)
    } else {
        s
    }
}

/// The upper-case image of a lowercase ASCII letter as a one-character
/// string slice; None for any character that upper-casing leaves as it is.
fn upper_letter_str(c: char) -> (r: Option<&'static str>)
    ensures
        match r {
            Some(t) => t@ == seq![spec_upper_char(c)],
            None => spec_upper_char(c) == c,
        },
{
    if c == 'a' {
        proof {
            reveal_strlit("A");
            assert(("A")@ =~= seq!['A']);
        }
        Some("A")
    } else if c == 'b' {
        proof {
            reveal_strlit("B");
            assert(("B")@ =~= seq!['B']);
        }
        Some("B")
    } else if c == 'c' {
        proof {
            reveal_strlit("C");
            assert(("C")@ =~= seq!['C']);
        }
        Some("C")
    } else if c == 'd' {
        proof {
            reveal_strlit("D");
            assert(("D")@ =~= seq!['D']);
        }
        Some("D")
    } else if c == 'e' {
        proof {
            reveal_strlit("E");
            assert(("E")@ =~= seq!['E']);
        }
        Some("E")
    } else if c == 'f' {
        proof {
            reveal_strlit("F");
            assert(("F")@ =~= seq!['F']);
        }
        Some("F")
    } else if c == 'g' {
        proof {
            reveal_strlit("G");
            assert(("G")@ =~= seq!['G']);
        }
        Some("G")
    } else if c == 'h' {
        proof {
            reveal_strlit("H");
            assert(("H")@ =~= seq!['H']);
        }
        Some("H")
    } else if c == 'i' {
        proof {
            reveal_strlit("I");
            assert(("I")@ =~= seq!['I']);
        }
        Some("I")
    } else if c == 'j' {
        proof {
            reveal_strlit("J");
            assert(("J")@ =~= seq!['J']);
        }
        Some("J")
    } else if c == 'k' {
        proof {
            reveal_strlit("K");
            assert(("K")@ =~= seq!['K']);
        }
        Some("K")
    } else if c == 'l' {
        proof {
            reveal_strlit("L");
            assert(("L")@ =~= seq!['L']);
        }
        Some("L")
    } else if c == 'm' {
        proof {
            reveal_strlit("M");
            assert(("M")@ =~= seq!['M']);
        }
        Some("M")
    } else if c == 'n' {
        proof {
            reveal_strlit("N");
            assert(("N")@ =~= seq!['N']);
        }
        Some("N")
    } else if c == 'o' {
        proof {
            reveal_strlit("O");
            assert(("O")@ =~= seq!['O']);
        }
        Some("O")
    } else if c == 'p' {
        proof {
            reveal_strlit("P");
            assert(("P")@ =~= seq!['P']);
        }
        Some("P")
    } else if c == 'q' {
        proof {
            reveal_strlit("Q");
            assert(("Q")@ =~= seq!['Q']);
        }
        Some("Q")
    } else if c == 'r' {
        proof {
            reveal_strlit("R");
            assert(("R")@ =~= seq!['R']);
        }
        Some("R")
    } else if c == 's' {
        proof {
            reveal_strlit("S");
            assert(("S")@ =~= seq!['S']);
        }
        Some("S")
    } else if c == 't' {
        proof {
            reveal_strlit("T");
            assert(("T")@ =~= seq!['T']);
        }
        Some("T")
    } else if c == 'u' {
        proof {
            reveal_strlit("U");
            assert(("U")@ =~= seq!['U']);
        }
        Some("U")
    } else if c == 'v' {
        proof {
            reveal_strlit("V");
            assert(("V")@ =~= seq!['V']);
        }
        Some("V")
    } else if c == 'w' {
        proof {
            reveal_strlit("W");
            assert(("W")@ =~= seq!['W']);
        }
        Some("W")
    } else if c == 'x' {
        proof {
            reveal_strlit("X");
            assert(("X")@ =~= seq!['X']);
        }
        Some("X")
    } else if c == 'y' {
        proof {
            reveal_strlit("Y");
            assert(("Y")@ =~= seq!['Y']);
        }
        Some("Y")
    } else if c == 'z' {
        proof {
            reveal_strlit("Z");
            assert(("Z")@ =~= seq!['Z']);
        }
        Some("Z")
    } else {
        None
    }
}

/// Upper-cases the ASCII letters of a string, character by character; a
/// string holding any non-ASCII character is returned unchanged (ticker
/// symbols are ASCII).
#[verifier::loop_isolation(false)]
pub(crate) fn ascii_upper(s: &str) -> (r: String)
    ensures
        r@ == spec_normalized(s@),
{
    if !s.is_ascii() {
        return s.to_owned();
    }
    let n: usize = s.unicode_len();
    let mut out = String::new();
    let mut i: usize = 0;
    while i < n
        invariant
            i <= n,
            out@ == spec_upper(s@.subrange(0, i as int)),
        decreases n - i,
    {
        let c = s.get_char(i);
        match upper_letter_str(c) {
            Some(t) => out.append(t),
            None => out.append(s.substring_ascii(i, i + 1)),
        }
        proof {
            assert(s@.subrange(i as int, i as int + 1) =~= seq![s@[i as int]]);
            assert(out@ =~= spec_upper(s@.subrange(0, i as int + 1)));
        }
        i = i + 1;
    }
    proof {
        assert(s@.subrange(0, n as int) =~= s@);
    }
    out
}

// ---------------------------------------------------------------------------
// Numeric value of a digit string
// ---------------------------------------------------------------------------

pub open spec fn pow10(k: nat) -> int
    decreases k,
{
    if k == 0 {
        1
    } else {
        10 * pow10((k - 1) as nat)
    }
}

/// Numeric value of a digit string, most significant digit first.
pub open spec fn spec_digits_val(s: Seq<char>) -> int
    decreases s.len(),
{
    if s.len() == 0 {
        0
    } else {
        spec_digits_val(s.drop_last()) * 10 + spec_digit_val(s.last())
    }
}

pub open spec fn spec_all_digits(s: Seq<char>) -> bool {
    forall|i: int| 0 <= i < s.len() ==> spec_is_digit(s[i])
}

proof fn lemma_pow10_pos(k: nat)
    ensures
        pow10(k) >= 1,
    decreases k,
{
    if k > 0 {
        lemma_pow10_pos((k - 1) as nat);
    }
}

proof fn lemma_pow10_mono(a: nat, b: nat)
    requires
        a <= b,
    ensures
        pow10(a) <= pow10(b),
    decreases b,
{
    if a < b {
        lemma_pow10_mono(a, (b - 1) as nat);
        lemma_pow10_pos((b - 1) as nat);
    }
}

/// The digit string of `n` is nonempty, all digits, has no leading zero
/// unless it is exactly "0", and evaluates back to `n`.
proof fn lemma_dec_seq_props(n: nat)
    ensures
        spec_dec_seq(n).len() >= 1,
        spec_all_digits(spec_dec_seq(n)),
        spec_digits_val(spec_dec_seq(n)) == n,
        n >= 1 ==> spec_dec_seq(n)[0] != '0',
        spec_dec_seq(n).len() > 1 ==> n >= 10,
    decreases n,
{
    if n < 10 {
        let s = spec_dec_seq(n);
        assert(s.drop_last() =~= Seq::<char>::empty());
        assert(spec_digits_val(Seq::<char>::empty()) == 0);
        assert(s.last() == spec_digit_char(n as int));
        assert(spec_digits_val(s) == spec_digit_val(spec_digit_char(n as int)));
        assert(spec_digit_val(spec_digit_char(n as int)) == n) by {
            if n == 0 {
            } else if n == 1 {
            } else if n == 2 {
            } else if n == 3 {
            } else if n == 4 {
            } else if n == 5 {
            } else if n == 6 {
            } else if n == 7 {
            } else if n == 8 {
            } else {
            }
        }
    } else {
        lemma_dec_seq_props(n / 10);
        let front = spec_dec_seq(n / 10);
        let whole = front.push(spec_digit_char((n % 10) as int));
        assert(whole.drop_last() =~= front);
        assert(spec_all_digits(whole)) by {
            assert forall|i: int| 0 <= i < whole.len() implies spec_is_digit(whole[i]) by {
                if i < front.len() {
                    assert(whole[i] == front[i]);
                }
            }
        }
        assert(spec_digits_val(whole) == (n / 10) * 10 + (n % 10));
    }
}

proof fn lemma_dec_seq_len(n: nat, k: nat)
    requires
        k >= 1,
        n < pow10(k),
    ensures
        spec_dec_seq(n).len() <= k,
    decreases n,
{
    if n >= 10 {
        if k == 1 {
            assert(pow10(1nat) == 10) by {
                reveal_with_fuel(pow10, 2);
            }
            assert(false);
        }
        lemma_pow10_pos((k - 1) as nat);
        vstd::arithmetic::div_mod::lemma_multiply_divide_lt(n as int, 10, pow10((k - 1) as nat));
        lemma_dec_seq_len(n / 10, (k - 1) as nat);
    }
}

// ---------------------------------------------------------------------------
// Period descriptors such as "30d"
// ---------------------------------------------------------------------------

/// The descriptor for a signed day count: its decimal string followed by 'd'.
pub open spec fn spec_period_label(n: int) -> Seq<char> {
    spec_int_seq(n) + seq!['d']
}

pub fn period_label(n: i64) -> (r: String)
    ensures
        r@ == spec_period_label(n as int),
{
    let mut s = i64_to_string(n);
    proof {
        reveal_strlit("d");
    }
    s.append("d");
    proof {
        assert(s@ =~= spec_period_label(n as int));
    }
    s
}

/// The day count a period descriptor denotes: an optional '-', then one to
/// eighteen decimal digits with no leading zero, then 'd'.  Eighteen digits
/// bound the value well inside the machine's signed range.
pub open spec fn spec_parse_period(s: Seq<char>) -> Option<i64> {
    if s.len() < 2 || s.last() != 'd' {
        None
    } else {
        let body = s.drop_last();
        if body[0] == '-' {
            let digs = body.subrange(1, body.len() as int);
            if 1 <= digs.len() <= 18 && spec_all_digits(digs) && digs[0] != '0' {
                Some((-spec_digits_val(digs)) as i64)
            } else {
                None
            }
        } else {
            if 1 <= body.len() <= 18 && spec_all_digits(body) && (body.len() > 1 ==> body[0]
                != '0') {
                Some(spec_digits_val(body) as i64)
            } else {
                None
            }
        }
    }
}

/// Reads a period descriptor such as "45d" back into its signed day count.
#[verifier::loop_isolation(false)]
pub fn parse_period_days(s: &str) -> (r: Option<i64>)
    ensures
        r == spec_parse_period(s@),
{
    let len: usize = s.unicode_len();
    if len < 2 {
        return None;
    }
    if s.get_char(len - 1) != 'd' {
        return None;
    }
    let neg: bool = s.get_char(0) == '-';
    let start: usize = if neg {
        1
    } else {
        0
    };
    let dcount: usize = len - 1 - start;
    proof {
        assert(s@.drop_last().len() == len - 1);
        if neg {
            assert(s@.drop_last().subrange(1, (len - 1) as int) =~= s@.subrange(
                start as int,
                (len - 1) as int,
            ));
        } else {
            assert(s@.drop_last() =~= s@.subrange(start as int, (len - 1) as int));
        }
    }
    let ghost digs = s@.subrange(start as int, (len - 1) as int);
    if dcount == 0 || dcount > 18 {
        return None;
    }
    if s.get_char(start) == '0' && (neg || dcount > 1) {
        return None;
    }
    let mut acc: u64 = 0;
    let mut i: usize = start;
    while i < len - 1
        invariant
            start <= i <= len - 1,
            len - 1 - start == dcount,
            1 <= dcount <= 18,
            len == s@.len(),
            digs == s@.subrange(start as int, (len - 1) as int),
            spec_all_digits(s@.subrange(start as int, i as int)),
            acc == spec_digits_val(s@.subrange(start as int, i as int)),
            acc < pow10((i - start) as nat),
        decreases len - 1 - i,
    {
        let c = s.get_char(i);
        let d = digit_val(c);
        if d >= 10 {
            proof {
                assert(digs[i - start] == c);
                assert(!spec_all_digits(digs));
            }
            return None;
        }
        proof {
            let pre = s@.subrange(start as int, i as int);
            let post = s@.subrange(start as int, i as int + 1);
            assert(post.drop_last() =~= pre);
            assert(post.last() == c);
            assert(spec_all_digits(post)) by {
                assert forall|j: int| 0 <= j < post.len() implies spec_is_digit(post[j]) by {
                    if j < pre.len() {
                        assert(post[j] == pre[j]);
                    }
                }
            }
            lemma_pow10_mono((i + 1 - start) as nat, 18nat);
            assert(pow10(18nat) == 1000000000000000000) by {
                reveal_with_fuel(pow10, 19);
            }
        }
        acc = acc * 10 + (d as u64);
        i = i + 1;
    }
    proof {
        assert(s@.subrange(start as int, i as int) == digs);
        lemma_pow10_mono((i - start) as nat, 18nat);
        assert(pow10(18nat) == 1000000000000000000) by {
            reveal_with_fuel(pow10, 19);
        }
    }
    if neg {
        Some(-(acc as i64))
    } else {
        Some(acc as i64)
    }
}

/// The descriptor of any day count below a quintillion in magnitude reads
/// back as exactly that count: rendering and parsing of period descriptors
/// are inverse to one another.
pub proof fn lemma_period_round_trip(n: i64)
    requires
        -1000000000000000000 < n < 1000000000000000000,
    ensures
        spec_parse_period(spec_period_label(n as int)) == Some(n),
{
    assert(pow10(18nat) == 1000000000000000000) by {
        reveal_with_fuel(pow10, 19);
    }
    let mag: nat = if n < 0 {
        (-(n as int)) as nat
    } else {
        n as nat
    };
    lemma_dec_seq_props(mag);
    lemma_dec_seq_len(mag, 18nat);
    let s = spec_period_label(n as int);
    assert(s.last() == 'd');
    assert(s.drop_last() =~= spec_int_seq(n as int));
    if n < 0 {
        let body = s.drop_last();
        assert(body[0] == '-');
        assert(body.subrange(1, body.len() as int) =~= spec_dec_seq(mag));
    } else {
        let body = s.drop_last();
        assert(body == spec_dec_seq(mag));
        assert(!spec_is_digit('-'));
    }
}

// ---------------------------------------------------------------------------
// Output rows
// ---------------------------------------------------------------------------

/// Assembles one output row from its already-rendered fields:
/// `<period start>,<symbol>,$<price>,<change>%,$<min>,$<max>,$<sma>`.
pub fn format_row(
    period_start: &str,
    symbol: &str,
    price: &str,
    change: &str,
    least: &str,
    greatest: &str,
    sma: &str,
) -> (r: String)
    ensures
        r@ == period_start@ + ","@ + symbol@ + ",$"@ + price@ + ","@ + change@ + "%,$"@ + least@
            + ",$"@ + greatest@ + ",$"@ + sma@,
{
    let mut out = String::new();
    out.append(period_start);
    out.append(",");
    out.append(symbol);
    out.append(",$");
    out.append(price);
    out.append(",");
    out.append(change);
    out.append("%,$");
    out.append(least);
    out.append(",$");
    out.append(greatest);
    out.append(",$");
    out.append(sma);
    proof {
        assert(out@ =~= period_start@ + ","@ + symbol@ + ",$"@ + price@ + ","@ + change@ + "%,$"@
            + least@ + ",$"@ + greatest@ + ",$"@ + sma@);
    }
    out
}

/// Assembles the optional header row for a given moving-average window.
pub fn format_header(window: u32) -> (r: String)
    ensures
        r@ == "period start,symbol,price,change %,min,max,"@ + spec_dec_seq(window as nat)
            + "d avg"@,
{
    let mut out = String::from_str("period start,symbol,price,change %,min,max,");
    let w = u64_to_string(window as u64);
    out.append(w.as_str());
    out.append("d avg");
    proof {
        assert(out@ =~= "period start,symbol,price,change %,min,max,"@ + spec_dec_seq(
            window as nat,
        ) + "d avg"@);
    }
    out
}

} // verus!
