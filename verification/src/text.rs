//! Text helpers: decimal text of integers for error messages, display
//! labels, and reading log-level names.
use vstd::prelude::*;

verus! {

/// The character of decimal digit `d`.
pub open spec fn digit_char(d: int) -> char {
    (48 + d) as char
}

/// The decimal digits of `n`, most significant first, without leading
/// zeros (a single `0` for zero).
pub open spec fn decimal_nat(n: nat) -> Seq<char>
    decreases n,
{
    if n < 10 {
        seq![digit_char(n as int)]
    } else {
        decimal_nat(n / 10).push(digit_char((n % 10) as int))
    }
}

/// The decimal text of `n`, with a leading `-` when it is negative.
pub open spec fn decimal(n: int) -> Seq<char> {
    if n < 0 {
        seq!['-'] + decimal_nat((-n) as nat)
    } else {
        decimal_nat(n as nat)
    }
}

/// The one-character text of digit `d`.
fn digit_str(d: u64) -> (r: &'static str)
    requires
        d < 10,
    ensures
        r@ == seq![digit_char(d as int)],
{
    proof {
        reveal_strlit("0");
        reveal_strlit("1");
        reveal_strlit("2");
        reveal_strlit("3");
        reveal_strlit("4");
        reveal_strlit("5");
        reveal_strlit("6");
        reveal_strlit("7");
        reveal_strlit("8");
        reveal_strlit("9");
    }
    let r = if d == 0 {
        "0"
    } else if d == 1 {
        "1"
    } else if d == 2 {
        "2"
    } else if d == 3 {
        "3"
    } else if d == 4 {
        "4"
    } else if d == 5 {
        "5"
    } else if d == 6 {
        "6"
    } else if d == 7 {
        "7"
    } else if d == 8 {
        "8"
    } else {
        "9"
    };
    assert(r@ =~= seq![digit_char(d as int)]);
    r
}

/// The characters of the digits `ds`, in order.
pub open spec fn digits_text(ds: Seq<u64>) -> Seq<char>
    decreases ds.len(),
{
    if ds.len() == 0 {
        Seq::empty()
    } else {
        seq![digit_char(ds[0] as int)] + digits_text(ds.drop_first())
    }
}

/// Appends the decimal digits of `n` to `s`.
pub fn push_decimal_nat(s: &mut String, n: u64)
    ensures
        final(s)@ == old(s)@ + decimal_nat(n as nat),
{
    let mut ds: Vec<u64> = Vec::new();
    let mut m: u64 = n;
    while m >= 10
        invariant
            decimal_nat(n as nat) == decimal_nat(m as nat) + digits_text(ds@),
            forall|j: int| 0 <= j < ds@.len() ==> #[trigger] ds@[j] < 10,
        decreases m,
    {
        let d = m % 10;
        let ghost rest = ds@;
        proof {
            assert(decimal_nat(m as nat) == decimal_nat((m / 10) as nat).push(digit_char(d as int)));
            let nds = seq![d] + rest;
            assert(nds.drop_first() =~= rest);
            assert(digits_text(nds) == seq![digit_char(d as int)] + digits_text(rest));
            assert(decimal_nat((m / 10) as nat) + digits_text(nds) =~= decimal_nat(m as nat)
                + digits_text(rest));
        }
        ds.insert(0, d);
        assert(ds@ =~= seq![d] + rest);
        m = m / 10;
    }
    let ghost start = s@;
    s.append(digit_str(m));
    assert(decimal_nat(m as nat) == seq![digit_char(m as int)]);
    let mut i: usize = 0;
    while i < ds.len()
        invariant
            i <= ds@.len(),
            forall|j: int| 0 <= j < ds@.len() ==> #[trigger] ds@[j] < 10,
            s@ == start + seq![digit_char(m as int)] + digits_text(ds@.take(i as int)),
            decimal_nat(n as nat) == decimal_nat(m as nat) + digits_text(ds@),
            decimal_nat(m as nat) == seq![digit_char(m as int)],
        decreases ds@.len() - i,
    {
        let d = ds[i];
        s.append(digit_str(d));
        proof {
            lemma_digits_text_take(ds@, i as int);
        }
        i = i + 1;
    }
    assert(ds@.take(i as int) =~= ds@);
}

/// The text of the first `i + 1` digits extends that of the first `i`.
proof fn lemma_digits_text_take(ds: Seq<u64>, i: int)
    requires
        0 <= i < ds.len(),
    ensures
        digits_text(ds.take(i + 1)) == digits_text(ds.take(i)) + seq![digit_char(ds[i] as int)],
    decreases i,
{
    let t = ds.take(i + 1);
    if i == 0 {
        assert(t.drop_first() =~= Seq::<u64>::empty());
        assert(ds.take(0) =~= Seq::<u64>::empty());
        assert(digits_text(t) =~= seq![digit_char(ds[0] as int)]);
    } else {
        let rest = ds.drop_first();
        lemma_digits_text_take(rest, i - 1);
        assert(t.drop_first() =~= rest.take(i));
        assert(ds.take(i).drop_first() =~= rest.take(i - 1));
        assert(rest[i - 1] == ds[i]);
        assert(digits_text(t) == seq![digit_char(ds[0] as int)] + digits_text(rest.take(i)));
        assert(digits_text(ds.take(i)) == seq![digit_char(ds[0] as int)] + digits_text(
            rest.take(i - 1),
        ));
        assert(digits_text(t) =~= digits_text(ds.take(i)) + seq![digit_char(ds[i] as int)]);
    }
}

/// Appends the decimal text of `n` to `s`.
pub fn push_decimal(s: &mut String, n: i64)
    ensures
        final(s)@ == old(s)@ + decimal(n as int),
{
    if n < 0 {
        let ghost start = s@;
        proof {
            reveal_strlit("-");
        }
        s.append("-");
        let mag: u64 = (0i128 - n as i128) as u64;
        push_decimal_nat(s, mag);
        assert(s@ =~= start + decimal(n as int));
    } else {
        push_decimal_nat(s, n as u64);
    }
}


/// The uppercase mapping of `c`, as `char::to_uppercase` gives it.
pub uninterp spec fn upper_case_mapping(c: char) -> Seq<char>;

/// `char::to_uppercase`, collected into a string: the uppercase mapping of
/// `c`, which std documents as one or more chars.
#[verifier::external_body]
fn to_uppercase_string(c: char) -> (r: String)
    ensures
        r@ == upper_case_mapping(c),
        r@.len() >= 1,
{
    c.to_uppercase().collect()
}

/// A display label: the text with its first character in upper case.
pub fn capitalise(s: &str) -> (r: String)
    ensures
        r@ == if s@.len() == 0 {
            Seq::<char>::empty()
        } else {
            upper_case_mapping(s@[0]) + s@.drop_first()
        },
{
    let n = s.unicode_len();
    if n == 0 {
        return String::new();
    }
    let mut r = to_uppercase_string(s.get_char(0));
    let rest = s.substring_char(1, n);
    r.append(rest);
    assert(rest@ =~= s@.drop_first());
    r
}

/// The code of `c` with ASCII upper-case letters lowered.
pub open spec fn lower_code(c: char) -> u32 {
    let u = c as u32;
    if 65 <= u && u <= 90 {
        (u + 32) as u32
    } else {
        u
    }
}

/// Whether `s`, with ASCII letters lowered, is `word`.
pub open spec fn lowers_to(s: Seq<char>, word: Seq<char>) -> bool {
    s.len() == word.len() && forall|i: int| 0 <= i < s.len() ==> lower_code(#[trigger] s[i]) == word[i] as u32
}

/// Whether `s`, with ASCII letters lowered, is `word`.
fn eq_lowered(s: &str, word: &str) -> (r: bool)
    ensures
        r == lowers_to(s@, word@),
{
    let n = s.unicode_len();
    if n != word.unicode_len() {
        return false;
    }
    let mut i: usize = 0;
    while i < n
        invariant
            n == s@.len(),
            n == word@.len(),
            i <= n,
            forall|j: int| 0 <= j < i ==> lower_code(#[trigger] s@[j]) == word@[j] as u32,
        decreases n - i,
    {
        let c = s.get_char(i) as u32;
        let l: u32 = if 65 <= c && c <= 90 {
            c + 32
        } else {
            c
        };
        if l != word.get_char(i) as u32 {
            return false;
        }
        i = i + 1;
    }
    true
}

/// A logging level.
#[derive(Debug, Clone, Copy, PartialEq, Eq, Structural)]
pub enum LogLevel {
    Trace,
    Debug,
    Info,
    Warn,
    Error,
}

/// The level a configured name stands for, ignoring case: "trace",
/// "debug", "warn" or "warning", "error"; anything else means info.
pub open spec fn level_named(s: Seq<char>) -> LogLevel {
    if lowers_to(s, "trace"@) {
        LogLevel::Trace
    } else if lowers_to(s, "debug"@) {
        LogLevel::Debug
    } else if lowers_to(s, "warn"@) || lowers_to(s, "warning"@) {
        LogLevel::Warn
    } else if lowers_to(s, "error"@) {
        LogLevel::Error
    } else {
        LogLevel::Info
    }
}

/// Reads a configured log-level name.
pub fn parse_log_level(s: &str) -> (r: LogLevel)
    ensures
        r == level_named(s@),
{
    if eq_lowered(s, "trace") {
        LogLevel::Trace
    } else if eq_lowered(s, "debug") {
        LogLevel::Debug
    } else if eq_lowered(s, "warn") || eq_lowered(s, "warning") {
        LogLevel::Warn
    } else if eq_lowered(s, "error") {
        LogLevel::Error
    } else {
        LogLevel::Info
    }
}

} // verus!
