//! Decimal rendering of counts and the human-readable duration label:
//! seconds are shown in the largest whole unit among week, day and hour,
//! falling back to whole minutes, pluralised unless the count is exactly 1.

use vstd::prelude::*;

verus! {

pub const WEEK_SECS: usize = 604800;

pub const DAY_SECS: usize = 86400;

pub const HOUR_SECS: usize = 3600;

pub const MINUTE_SECS: usize = 60;

pub open spec fn digit_char(d: int) -> char {
    if d == 0 {
        '0'
    } else if d == 1 {
        '1'
    } else if d == 2 {
        '2'
    } else if d == 3 {
        '3'
    } else if d == 4 {
        '4'
    } else if d == 5 {
        '5'
    } else if d == 6 {
        '6'
    } else if d == 7 {
        '7'
    } else if d == 8 {
        '8'
    } else {
        '9'
    }
}

/// The decimal digits of `n`, most significant first.
pub open spec fn dec_digits(n: nat) -> Seq<char>
    decreases n,
{
    if n < 10 {
        seq![digit_char(n as int)]
    } else {
        dec_digits(n / 10) + seq![digit_char((n % 10) as int)]
    }
}

fn digit_str(d: usize) -> (r: &'static str)
    requires
        d < 10,
    ensures
        r@ == seq![digit_char(d as int)],
{
    proof {
        reveal_strlit("0");
        reveal_strlit("1");
        reveal_strlit("2");
        reveal_strlit("3");
        reveal_strlit("4");
        reveal_strlit("5");
        reveal_strlit("6");
        reveal_strlit("7");
        reveal_strlit("8");
        reveal_strlit("9");
    }
    if d == 0 {
        "0"
    } else if d == 1 {
        "1"
    } else if d == 2 {
        "2"
    } else if d == 3 {
        "3"
    } else if d == 4 {
        "4"
    } else if d == 5 {
        "5"
    } else if d == 6 {
        "6"
    } else if d == 7 {
        "7"
    } else if d == 8 {
        "8"
    } else {
        "9"
    }
}

/// Writes `n` in decimal.
pub fn fmt_usize(n: usize) -> (r: String)
    ensures
        r@ == dec_digits(n as nat),
    decreases n,
{
    if n < 10 {
        digit_str(n).to_owned()
    } else {
        let mut s = fmt_usize(n / 10);
        s.append(digit_str(n % 10));
        s
    }
}

/// The unit classes a duration label can use; contracts speak of durations
/// through this classification.
pub enum DurUnit {
    Week,
    Day,
    Hour,
    Minute,
}

/// The unit a duration of `secs` seconds is shown in.
pub open spec fn dur_unit(secs: nat) -> DurUnit {
    if secs >= WEEK_SECS {
        DurUnit::Week
    } else if secs >= DAY_SECS {
        DurUnit::Day
    } else if secs >= HOUR_SECS {
        DurUnit::Hour
    } else {
        DurUnit::Minute
    }
}

/// How many whole units of `dur_unit(secs)` fit in `secs` seconds.
pub open spec fn dur_count(secs: nat) -> nat {
    if secs >= WEEK_SECS {
        secs / (WEEK_SECS as nat)
    } else if secs >= DAY_SECS {
        secs / (DAY_SECS as nat)
    } else if secs >= HOUR_SECS {
        secs / (HOUR_SECS as nat)
    } else {
        secs / (MINUTE_SECS as nat)
    }
}

pub open spec fn unit_label(u: DurUnit) -> Seq<char> {
    match u {
        DurUnit::Week => "week"@,
        DurUnit::Day => "day"@,
        DurUnit::Hour => "hour"@,
        DurUnit::Minute => "minute"@,
    }
}

/// Reduces a duration in seconds to a count of the largest whole unit.
pub fn duration_simplify(secs: usize) -> (r: (usize, &'static str))
    ensures
        r.0 as nat == dur_count(secs as nat),
        r.1@ == unit_label(dur_unit(secs as nat)),
{
    if secs >= WEEK_SECS {
        (secs / WEEK_SECS, "week")
    } else if secs >= DAY_SECS {
        (secs / DAY_SECS, "day")
    } else if secs >= HOUR_SECS {
        (secs / HOUR_SECS, "hour")
    } else {
        (secs / MINUTE_SECS, "minute")
    }
}

/// The full duration label: count, a space, the unit, an `s` unless the
/// count is exactly 1.
pub open spec fn duration_label(secs: nat) -> Seq<char> {
    dec_digits(dur_count(secs)) + " "@ + unit_label(dur_unit(secs)) + (if dur_count(secs) == 1 {
        Seq::<char>::empty()
    } else {
        "s"@
    })
}

/// The numeric value of a decimal digit character, `-1` for anything else.
pub open spec fn digit_val(c: char) -> int {
    if c == '0' {
        0
    } else if c == '1' {
        1
    } else if c == '2' {
        2
    } else if c == '3' {
        3
    } else if c == '4' {
        4
    } else if c == '5' {
        5
    } else if c == '6' {
        6
    } else if c == '7' {
        7
    } else if c == '8' {
        8
    } else if c == '9' {
        9
    } else {
        -1
    }
}

pub open spec fn all_digits(s: Seq<char>) -> bool {
    forall|i: int| 0 <= i < s.len() ==> digit_val(#[trigger] s[i]) >= 0
}

/// The number a digit string denotes, most significant digit first.
pub open spec fn dec_val(s: Seq<char>) -> int
    decreases s.len(),
{
    if s.len() == 0 {
        0
    } else {
        dec_val(s.drop_last()) * 10 + digit_val(s.last())
    }
}

/// Length of the leading whitespace-free token of `s`.
pub open spec fn token_len(s: Seq<char>) -> int
    decreases s.len(),
{
    if s.len() == 0 {
        0
    } else if s[0] == ' ' {
        0
    } else {
        1 + token_len(s.drop_first())
    }
}

/// The first whitespace-delimited token of `s`.
pub open spec fn spec_token(s: Seq<char>) -> Seq<char> {
    s.take(token_len(s))
}

/// `token_len` is the index of the first space, or the whole length.
pub proof fn lemma_token_len(s: Seq<char>)
    ensures
        0 <= token_len(s) <= s.len(),
        forall|j: int| 0 <= j < token_len(s) ==> s[j] != ' ',
        token_len(s) < s.len() ==> s[token_len(s)] == ' ',
    decreases s.len(),
{
    if s.len() > 0 && s[0] != ' ' {
        lemma_token_len(s.drop_first());
        assert forall|j: int| 0 <= j < token_len(s) implies s[j] != ' ' by {
            if j > 0 {
                assert(s.drop_first()[j - 1] == s[j]);
            }
        }
    }
}

/// Digit strings denote non-negative, prefix-monotone values.
pub proof fn lemma_dec_val_prefix(s: Seq<char>, j: int)
    requires
        all_digits(s),
        0 <= j <= s.len(),
    ensures
        0 <= dec_val(s.take(j)) <= dec_val(s),
    decreases s.len() - j,
{
    if j == s.len() {
        assert(s.take(j) =~= s);
        lemma_dec_val_nonneg(s);
    } else {
        assert(s.take(j + 1).drop_last() =~= s.take(j));
        assert(s.take(j + 1).last() == s[j]);
        lemma_dec_val_nonneg(s.take(j));
        lemma_dec_val_prefix(s, j + 1);
    }
}

pub proof fn lemma_dec_val_nonneg(s: Seq<char>)
    requires
        all_digits(s),
    ensures
        dec_val(s) >= 0,
    decreases s.len(),
{
    if s.len() > 0 {
        assert(all_digits(s.drop_last()));
        lemma_dec_val_nonneg(s.drop_last());
    }
}

/// Reads the leading token of `s` as an unsigned count of seconds: defined
/// exactly when the token is non-empty, all digits, and fits the machine
/// word.
pub open spec fn parse_seconds_spec(s: Seq<char>) -> Option<int> {
    let t = spec_token(s);
    if t.len() > 0 && all_digits(t) && dec_val(t) <= usize::MAX {
        Some(dec_val(t))
    } else {
        None
    }
}

/// Parses the first whitespace-delimited token of `s` as a count of seconds.
pub fn parse_seconds(s: &str) -> (r: Option<usize>)
    ensures
        match r {
            Some(v) => parse_seconds_spec(s@) == Some(v as int),
            None => parse_seconds_spec(s@) is None,
        },
{
    proof {
        lemma_token_len(s@);
    }
    let n = s.unicode_len();
    let mut tl: usize = 0;
    while tl < n && s.get_char(tl) != ' '
        invariant
            n == s@.len(),
            tl <= n,
            forall|j: int| 0 <= j < tl ==> s@[j] != ' ',
        decreases n - tl,
    {
        tl = tl + 1;
    }
    proof {
        lemma_token_len(s@);
        assert(tl as int == token_len(s@)) by {
            if tl < n {
                assert(s@[tl as int] == ' ');
            }
        }
    }
    if tl == 0 {
        return None;
    }
    let ghost t = spec_token(s@);
    let mut acc: usize = 0;
    let mut j: usize = 0;
    while j < tl
        invariant
            n == s@.len(),
            0 < tl <= n,
            tl as int == token_len(s@),
            t == spec_token(s@),
            j <= tl,
            all_digits(t.take(j as int)),
            acc as int == dec_val(t.take(j as int)),
        decreases tl - j,
    {
        let c = s.get_char(j);
        proof {
            assert(t[j as int] == s@[j as int]);
        }
        let d: usize = if c == '0' {
            0
        } else if c == '1' {
            1
        } else if c == '2' {
            2
        } else if c == '3' {
            3
        } else if c == '4' {
            4
        } else if c == '5' {
            5
        } else if c == '6' {
            6
        } else if c == '7' {
            7
        } else if c == '8' {
            8
        } else if c == '9' {
            9
        } else {
            proof {
                assert(digit_val(t[j as int]) < 0);
            }
            return None;
        };
        proof {
            assert(d as int == digit_val(t[j as int]));
            assert(t.take(j + 1).drop_last() =~= t.take(j as int));
            assert(t.take(j + 1).last() == t[j as int]);
            assert(all_digits(t.take(j + 1)));
        }
        let wide: u128 = acc as u128 * 10 + d as u128;
        if wide > usize::MAX as u128 {
            proof {
                assert(dec_val(t.take(j + 1)) > usize::MAX);
                if parse_seconds_spec(s@) is Some {
                    lemma_dec_val_prefix(t, j + 1);
                }
            }
            return None;
        }
        acc = wide as usize;
        j = j + 1;
    }
    proof {
        assert(t.take(tl as int) =~= t);
    }
    Some(acc)
}

/// Writes the duration label for `secs` seconds.
pub fn duration_text(secs: usize) -> (r: String)
    ensures
        r@ == duration_label(secs as nat),
{
    let (count, unit) = duration_simplify(secs);
    let mut s = fmt_usize(count);
    s.append(" ");
    s.append(unit);
    if count != 1 {
        s.append("s");
    }
    s
}

} // verus!
