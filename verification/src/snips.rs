//! The state and decision logic of the terminal widgets: the progress
//! bar's clamped amount, and the interpretation of interactive prompt
//! answers.  Drawing and reading the terminal is left to the callers
//! around the library, which loop until a decision is reached.

use vstd::prelude::*;

use crate::log::name_matches;
use crate::log::ci_match;
use crate::tokens::is_digit_char;

verus! {

/// A terminal progress bar: the shown amount (0 to 100) and the bar width
/// in characters.
pub struct Loader {
    pub amount: u8,
    pub width: usize,
}

impl Loader {
    /// A fresh bar: nothing filled, thirty characters wide.
    pub fn new() -> (r: Loader)
        ensures
            r.amount == 0,
            r.width == 30,
    {
        Loader { amount: 0, width: 30 }
    }

    /// Set the shown amount, clamped to 100.
    pub fn set_amount(&mut self, amount: u8)
        ensures
            final(self).amount == if amount > 100 {
                100u8
            } else {
                amount
            },
            final(self).width == old(self).width,
    {
        self.amount = if amount > 100 {
            100
        } else {
            amount
        };
    }
}

pub open spec fn is_space_char(c: char) -> bool {
    c == ' ' || c == '\t' || c == '\n' || c == '\r'
}

/// The first index of `s` that holds no whitespace.
pub open spec fn trim_start_idx(s: Seq<char>, i: int) -> int
    decreases s.len() - i when 0 <= i <= s.len()
{
    if i < s.len() && is_space_char(s[i]) {
        trim_start_idx(s, i + 1)
    } else {
        i
    }
}

/// One past the last index of `s` that holds no whitespace.
pub open spec fn trim_end_idx(s: Seq<char>, j: int) -> int
    decreases j when 0 <= j <= s.len()
{
    if j > 0 && is_space_char(s[j - 1]) {
        trim_end_idx(s, j - 1)
    } else {
        j
    }
}

/// `s` without leading and trailing whitespace.
pub open spec fn trimmed(s: Seq<char>) -> Seq<char> {
    let a = trim_start_idx(s, 0);
    let b = trim_end_idx(s, s.len() as int);
    if a <= b {
        s.subrange(a, b)
    } else {
        Seq::empty()
    }
}

proof fn lemma_trim_start_bounds(s: Seq<char>, i: int)
    requires
        0 <= i <= s.len(),
    ensures
        i <= trim_start_idx(s, i) <= s.len(),
    decreases s.len() - i,
{
    if i < s.len() && is_space_char(s[i]) {
        lemma_trim_start_bounds(s, i + 1);
    }
}

proof fn lemma_trim_end_bounds(s: Seq<char>, j: int)
    requires
        0 <= j <= s.len(),
    ensures
        0 <= trim_end_idx(s, j) <= j,
    decreases j,
{
    if j > 0 && is_space_char(s[j - 1]) {
        lemma_trim_end_bounds(s, j - 1);
    }
}

/// `input` without leading and trailing whitespace.
pub fn trim_input(input: &str) -> (r: String)
    ensures
        r@ == trimmed(input@),
{
    let n = input.unicode_len();
    let mut a: usize = 0;
    while a < n && space_char(input.get_char(a))
        invariant
            0 <= a <= n,
            n == input@.len(),
            trim_start_idx(input@, 0) == trim_start_idx(input@, a as int),
        decreases n - a,
    {
        a = a + 1;
    }
    assert(trim_start_idx(input@, 0) == a);
    let mut b: usize = n;
    while b > a && space_char(input.get_char(b - 1))
        invariant
            a <= b <= n,
            n == input@.len(),
            trim_end_idx(input@, n as int) == trim_end_idx(input@, b as int),
        decreases b,
    {
        b = b - 1;
    }
    proof {
        lemma_trim_start_bounds(input@, 0);
        if b > a {
            assert(trim_end_idx(input@, b as int) == b);
        } else {
            lemma_trim_end_bounds(input@, a as int);
            assert(input@.subrange(a as int, a as int) =~= Seq::<char>::empty());
        }
    }
    input.substring_char(a, b).to_owned()
}

fn space_char(c: char) -> (r: bool)
    ensures
        r == is_space_char(c),
{
    c == ' ' || c == '\t' || c == '\n' || c == '\r'
}

/// What a yes/no prompt answer means: an empty answer picks the default,
/// `y`/`yes` and `n`/`no` (in any ASCII case) answer directly, and any
/// other answer asks the prompt loop to try again.
pub open spec fn confirm_decision(input: Seq<char>, default: bool) -> Option<bool> {
    let t = trimmed(input);
    if t.len() == 0 {
        Some(default)
    } else if name_matches(t, "y"@) || name_matches(t, "yes"@) {
        Some(true)
    } else if name_matches(t, "n"@) || name_matches(t, "no"@) {
        Some(false)
    } else {
        None
    }
}

/// Interpret one answer to a yes/no prompt.
pub fn confirm_choice(input: &str, default: bool) -> (r: Option<bool>)
    ensures
        r == confirm_decision(input@, default),
{
    let t = trim_input(input);
    if t.unicode_len() == 0 {
        Some(default)
    } else if ci_match(t.as_str(), "y") || ci_match(t.as_str(), "yes") {
        Some(true)
    } else if ci_match(t.as_str(), "n") || ci_match(t.as_str(), "no") {
        Some(false)
    } else {
        None
    }
}

/// The numeric value of a run of decimal digits.
pub open spec fn dec_value(s: Seq<char>) -> int
    decreases s.len(),
{
    if s.len() == 0 {
        0
    } else {
        dec_value(s.take(s.len() - 1)) * 10 + (s[s.len() - 1] as int - ('0' as int))
    }
}

pub open spec fn all_digits(s: Seq<char>) -> bool {
    forall|k: int| 0 <= k < s.len() ==> is_digit_char(#[trigger] s[k])
}

/// What `usize` parsing accepts: an optional leading plus sign, then one
/// or more digits whose value fits the machine word.
pub open spec fn parse_usize_spec(s: Seq<char>) -> Option<int> {
    let d = if s.len() > 0 && s[0] == '+' {
        s.skip(1)
    } else {
        s
    };
    if d.len() > 0 && all_digits(d) && dec_value(d) <= usize::MAX {
        Some(dec_value(d))
    } else {
        None
    }
}

proof fn lemma_dec_value_nonneg(s: Seq<char>)
    requires
        all_digits(s),
    ensures
        dec_value(s) >= 0,
    decreases s.len(),
{
    if s.len() > 0 {
        assert(all_digits(s.take(s.len() - 1))) by {
            assert forall|k: int| 0 <= k < s.len() - 1 implies is_digit_char(
                #[trigger] s.take(s.len() - 1)[k],
            ) by {
                assert(s.take(s.len() - 1)[k] == s[k]);
            }
        }
        lemma_dec_value_nonneg(s.take(s.len() - 1));
    }
}

proof fn lemma_dec_value_grows(s: Seq<char>, j: int)
    requires
        0 <= j <= s.len(),
        forall|k: int| 0 <= k < s.len() ==> is_digit_char(#[trigger] s[k]),
    ensures
        dec_value(s) >= dec_value(s.take(j)),
    decreases s.len() - j,
{
    if j < s.len() {
        lemma_dec_value_grows(s, j + 1);
        let t = s.take(j + 1);
        assert(t.take(j) =~= s.take(j));
        assert(all_digits(s.take(j))) by {
            assert forall|k: int| 0 <= k < j implies is_digit_char(#[trigger] s.take(j)[k]) by {
                assert(s.take(j)[k] == s[k]);
            }
        }
        lemma_dec_value_nonneg(s.take(j));
        assert(t[j] == s[j]);
        assert(dec_value(t) == dec_value(s.take(j)) * 10 + (t[j] as int - ('0' as int)));
        assert(dec_value(t) >= dec_value(s.take(j))) by (nonlinear_arith)
            requires
                dec_value(t) == dec_value(s.take(j)) * 10 + (t[j] as int - ('0' as int)),
                dec_value(s.take(j)) >= 0,
                t[j] as int - ('0' as int) >= 0,
        ;
    } else {
        assert(s.take(j) =~= s);
    }
}

/// Parse a decimal `usize`, exactly as the prompt loops need it.
pub fn parse_usize(input: &str) -> (r: Option<usize>)
    ensures
        r is Some ==> parse_usize_spec(input@) == Some(r->Some_0 as int),
        r is None ==> parse_usize_spec(input@) is None,
{
    let n = input.unicode_len();
    let start: usize = if n > 0 && input.get_char(0) == '+' {
        1
    } else {
        0
    };
    let ghost d = if start == 1 {
        input@.skip(1)
    } else {
        input@
    };
    assert(d.len() == n - start);
    if n == start {
        return None;
    }
    let mut acc: usize = 0;
    let mut i: usize = start;
    while i < n
        invariant
            start <= i <= n,
            n == input@.len(),
            start <= 1,
            (start == 1) <==> (input@.len() > 0 && input@[0] == '+'),
            d == if start == 1 {
                input@.skip(1)
            } else {
                input@
            },
            d.len() == n - start,
            forall|k: int| 0 <= k < i - start ==> is_digit_char(#[trigger] d[k]),
            acc == dec_value(d.take(i - start)),
        decreases n - i,
    {
        let c = input.get_char(i);
        assert(d[i - start] == input@[i as int]);
        if !('0' <= c && c <= '9') {
            assert(!is_digit_char(d[i - start]));
            return None;
        }
        let digit: usize = (c as u32 as usize) - 48;
        assert(is_digit_char(c));
        if acc > (usize::MAX - digit) / 10 {
            proof {
                let t = d.take(i - start + 1);
                assert(t.take(t.len() - 1) =~= d.take(i - start));
                assert(t[t.len() - 1] == d[i - start]);
                assert(dec_value(t) == acc * 10 + digit);
                assert(acc * 10 + digit > usize::MAX) by (nonlinear_arith)
                    requires
                        acc > (usize::MAX - digit) / 10,
                        0 <= digit <= 9,
                        acc >= 0,
                ;
                if all_digits(d) {
                    lemma_dec_value_grows(d, i - start + 1);
                }
            }
            return None;
        }
        proof {
            let t = d.take(i - start + 1);
            assert(t.take(t.len() - 1) =~= d.take(i - start));
            assert(t[t.len() - 1] == d[i - start]);
            assert(acc * 10 + digit <= usize::MAX) by (nonlinear_arith)
                requires
                    acc <= (usize::MAX - digit) / 10,
                    0 <= digit <= 9,
                    acc >= 0,
            ;
        }
        acc = acc * 10 + digit;
        i = i + 1;
    }
    assert(d.take(n - start) =~= d);
    Some(acc)
}

/// What a numbered-selection answer means: a number between 1 and the
/// option count picks that option (counting from zero); anything else asks
/// the prompt loop to try again.
pub open spec fn select_decision(input: Seq<char>, option_count: int) -> Option<int> {
    match parse_usize_spec(trimmed(input)) {
        Some(choice) => {
            if 1 <= choice && choice <= option_count {
                Some(choice - 1)
            } else {
                None
            }
        },
        None => None,
    }
}

/// Interpret one answer to a numbered selection prompt.
pub fn select_choice(input: &str, option_count: usize) -> (r: Option<usize>)
    ensures
        r is Some ==> select_decision(input@, option_count as int) == Some(r->Some_0 as int),
        r is None ==> select_decision(input@, option_count as int) is None,
{
    let t = trim_input(input);
    match parse_usize(t.as_str()) {
        Some(choice) => {
            if 1 <= choice && choice <= option_count {
                Some(choice - 1)
            } else {
                None
            }
        },
        None => None,
    }
}

/// Interpret one answer to a numbered selection prompt that has a default:
/// an empty answer picks the default.
pub fn select_choice_with_default(input: &str, option_count: usize, default: usize) -> (r: Option<
    usize,
>)
    ensures
        trimmed(input@).len() == 0 ==> r == Some(default),
        trimmed(input@).len() > 0 ==> {
            &&& r is Some ==> select_decision(input@, option_count as int) == Some(
                r->Some_0 as int,
            )
            &&& r is None ==> select_decision(input@, option_count as int) is None
        },
{
    let t = trim_input(input);
    if t.unicode_len() == 0 {
        return Some(default);
    }
    select_choice(input, option_count)
}

} // verus!
