//! The optional build tag of a wheel: a decimal number, then any text that does not start
//! with a digit.
use vstd::prelude::*;

use crate::text::{chars_of, string_of};

verus! {

pub open spec fn is_digit(c: char) -> bool {
    '0' <= c && c <= '9'
}

pub open spec fn digit_value(c: char) -> nat {
    (c as nat - '0' as nat) as nat
}

/// The number that the decimal digits `s` write.
pub open spec fn decimal_value(s: Seq<char>) -> nat
    decreases s.len(),
{
    if s.len() == 0 {
        0
    } else {
        decimal_value(s.drop_last()) * 10 + digit_value(s.last())
    }
}

pub open spec fn all_digits(s: Seq<char>) -> bool {
    forall|i: int| 0 <= i < s.len() ==> is_digit(#[trigger] s[i])
}

/// How many characters at the start of `s` are digits.
pub open spec fn digit_prefix_len(s: Seq<char>) -> nat
    decreases s.len(),
{
    if s.len() == 0 || !is_digit(s[0]) {
        0
    } else {
        1 + digit_prefix_len(s.drop_first())
    }
}

/// Why a build tag was refused.
#[derive(Debug, Clone, Copy, PartialEq, Eq, Structural)]
pub enum BuildTagError {
    Empty,
    NoLeadingDigit,
    Overflow,
}

impl BuildTagError {
    /// The text that describes the error.
    pub open spec fn text(&self) -> Seq<char> {
        match self {
            BuildTagError::Empty => "must not be empty"@,
            BuildTagError::NoLeadingDigit => "must start with a digit"@,
            BuildTagError::Overflow => "number too large to fit in target type"@,
        }
    }

    /// The message that describes the error.
    pub fn message(&self) -> (r: String)
        ensures
            r@ == self.text(),
    {
        match self {
            BuildTagError::Empty => String::from_str("must not be empty"),
            BuildTagError::NoLeadingDigit => String::from_str("must start with a digit"),
            BuildTagError::Overflow => String::from_str("number too large to fit in target type"),
        }
    }
}

/// A parsed build tag: its leading number and what follows it.
#[derive(Debug, Clone, PartialEq, Eq, Hash, PartialOrd, Ord)]
pub struct BuildTag {
    pub number: u64,
    pub suffix: String,
}

/// The model of a build tag.
pub struct BuildTagView {
    pub number: nat,
    pub suffix: Seq<char>,
}

impl View for BuildTag {
    type V = BuildTagView;

    open spec fn view(&self) -> BuildTagView {
        BuildTagView { number: self.number as nat, suffix: self.suffix@ }
    }
}

/// What parsing `s` as a build tag gives.
pub open spec fn build_tag_spec(s: Seq<char>) -> Result<BuildTagView, BuildTagError> {
    let k = digit_prefix_len(s) as int;
    if s.len() == 0 {
        Err(BuildTagError::Empty)
    } else if k == 0 {
        Err(BuildTagError::NoLeadingDigit)
    } else if decimal_value(s.take(k)) > u64::MAX {
        Err(BuildTagError::Overflow)
    } else {
        Ok(BuildTagView { number: decimal_value(s.take(k)), suffix: s.skip(k) })
    }
}

/// The shortest decimal digits of `n`.
pub open spec fn decimal_digits(n: nat) -> Seq<char>
    decreases n,
{
    if n < 10 {
        seq![('0' as nat + n) as char]
    } else {
        decimal_digits(n / 10).push(('0' as nat + n % 10) as char)
    }
}

/// The text of a build tag: its number in decimal, then its suffix.
pub open spec fn build_tag_text(b: BuildTagView) -> Seq<char> {
    decimal_digits(b.number) + b.suffix
}

pub proof fn lemma_decimal_digits(n: nat)
    ensures
        all_digits(decimal_digits(n)),
        decimal_digits(n).len() >= 1,
        decimal_value(decimal_digits(n)) == n,
    decreases n,
{
    if n >= 10 {
        lemma_decimal_digits(n / 10);
        let d = decimal_digits(n);
        assert(d.drop_last() == decimal_digits(n / 10));
        assert(digit_value(d.last()) == n % 10);
        assert(d.len() > 0);
        assert(decimal_value(d) == decimal_value(d.drop_last()) * 10 + digit_value(d.last()));
        assert(decimal_value(d) == (n / 10) * 10 + n % 10);
        assert(n == (n / 10) * 10 + n % 10) by (nonlinear_arith);
    } else {
        assert(decimal_digits(n).drop_last() =~= Seq::<char>::empty());
        assert(digit_value(decimal_digits(n).last()) == n);
        assert(decimal_value(decimal_digits(n)) == decimal_value(decimal_digits(n).drop_last()) * 10
            + digit_value(decimal_digits(n).last()));
    }
}

proof fn lemma_digit_prefix_len(d: Seq<char>, rest: Seq<char>)
    requires
        all_digits(d),
        rest.len() == 0 || !is_digit(rest[0]),
    ensures
        digit_prefix_len(d + rest) == d.len(),
    decreases d.len(),
{
    if d.len() > 0 {
        assert((d + rest).drop_first() == d.drop_first() + rest);
        lemma_digit_prefix_len(d.drop_first(), rest);
        assert(is_digit(d[0]));
        assert((d + rest)[0] == d[0]);
    } else {
        assert(d + rest == rest);
    }
}

/// Rendering a build tag and parsing the text gives the same build tag back, provided its
/// suffix does not start with a digit.
pub proof fn lemma_build_tag_round_trip(b: BuildTagView)
    requires
        b.number <= u64::MAX,
        b.suffix.len() == 0 || !is_digit(b.suffix[0]),
    ensures
        build_tag_spec(build_tag_text(b)) == Ok::<BuildTagView, BuildTagError>(b),
{
    let d = decimal_digits(b.number);
    lemma_decimal_digits(b.number);
    lemma_digit_prefix_len(d, b.suffix);
    let s = build_tag_text(b);
    assert(s.take(d.len() as int) == d);
    assert(s.skip(d.len() as int) == b.suffix);
}

impl BuildTag {
    /// Parses a build tag: a decimal number that fits in 64 bits, then any text.
    pub fn parse(s: &str) -> (r: Result<BuildTag, BuildTagError>)
        ensures
            match r {
                Ok(b) => build_tag_spec(s@) == Ok::<BuildTagView, BuildTagError>(b@),
                Err(e) => build_tag_spec(s@) == Err::<BuildTagView, BuildTagError>(e),
            },
    {
        let cs = chars_of(s);
        if cs.len() == 0 {
            return Err(BuildTagError::Empty);
        }
        let mut i: usize = 0;
        let mut value: u64 = 0;
        while i < cs.len() && '0' <= cs[i] && cs[i] <= '9'
            invariant
                i <= cs@.len(),
                cs@ == s@,
                all_digits(cs@.take(i as int)),
                value as nat == decimal_value(cs@.take(i as int)),
            decreases cs@.len() - i,
        {
            let d = cs[i];
            let dv: u64 = (d as u64) - ('0' as u64);
            proof {
                assert(cs@.take(i as int + 1).drop_last() == cs@.take(i as int));
                lemma_prefix_grows(cs@, i as int);
            }
            match value.checked_mul(10) {
                Some(m) => match m.checked_add(dv) {
                    Some(v) => {
                        value = v;
                    },
                    None => {
                        proof {
                            lemma_overflow_stays(cs@, i as int + 1);
                        }
                        return Err(BuildTagError::Overflow);
                    },
                },
                None => {
                    proof {
                        lemma_overflow_stays(cs@, i as int + 1);
                    }
                    return Err(BuildTagError::Overflow);
                },
            }
            i = i + 1;
        }
        proof {
            lemma_prefix_end(cs@, i as int);
        }
        if i == 0 {
            return Err(BuildTagError::NoLeadingDigit);
        }
        let mut rest: Vec<char> = Vec::new();
        let mut j: usize = i;
        while j < cs.len()
            invariant
                i <= j <= cs@.len(),
                rest@ == cs@.subrange(i as int, j as int),
            decreases cs@.len() - j,
        {
            rest.push(cs[j]);
            j = j + 1;
        }
        proof {
            assert(rest@ == cs@.skip(i as int));
        }
        Ok(BuildTag { number: value, suffix: string_of(&rest) })
    }

    /// The text of the build tag.
    pub fn text(&self) -> (r: String)
        ensures
            r@ == build_tag_text(self@),
    {
        let d = digits_of(self.number);
        let mut t = string_of(&d);
        t.append(self.suffix.as_str());
        t
    }
}

proof fn lemma_prefix_grows(s: Seq<char>, i: int)
    requires
        0 <= i < s.len(),
        all_digits(s.take(i)),
        is_digit(s[i]),
    ensures
        all_digits(s.take(i + 1)),
{
    assert forall|k: int| 0 <= k < i + 1 implies is_digit(#[trigger] s.take(i + 1)[k]) by {
        if k < i {
            assert(s.take(i + 1)[k] == s.take(i)[k]);
        }
    }
}

/// The digit prefix of `s` is at least `i` long where its first `i` characters are digits.
proof fn lemma_prefix_at_least(s: Seq<char>, i: int)
    requires
        0 <= i <= s.len(),
        all_digits(s.take(i)),
    ensures
        digit_prefix_len(s) >= i,
        i < s.len() && !is_digit(s[i]) ==> digit_prefix_len(s) == i,
        i == s.len() ==> digit_prefix_len(s) == i,
    decreases i,
{
    if i > 0 {
        assert(is_digit(s.take(i)[0]));
        let t = s.drop_first();
        assert forall|k: int| 0 <= k < i - 1 implies is_digit(#[trigger] t.take(i - 1)[k]) by {
            assert(t.take(i - 1)[k] == s.take(i)[k + 1]);
        }
        lemma_prefix_at_least(t, i - 1);
        if i < s.len() {
            assert(t[i - 1] == s[i]);
        }
    } else if s.len() > 0 && !is_digit(s[0]) {
    }
}

proof fn lemma_prefix_end(s: Seq<char>, i: int)
    requires
        0 <= i <= s.len(),
        all_digits(s.take(i)),
        i == s.len() || !is_digit(s[i]),
    ensures
        digit_prefix_len(s) == i,
{
    lemma_prefix_at_least(s, i);
}

proof fn lemma_value_monotone(s: Seq<char>, i: int, j: int)
    requires
        0 <= i <= j <= s.len(),
    ensures
        decimal_value(s.take(i)) <= decimal_value(s.take(j)),
    decreases j - i,
{
    if i < j {
        lemma_value_monotone(s, i, j - 1);
        assert(s.take(j).drop_last() == s.take(j - 1));
    }
}

/// Once the value of the first `i` digits is too large for 64 bits, so is that of the whole
/// digit prefix.
proof fn lemma_overflow_stays(s: Seq<char>, i: int)
    requires
        0 < i <= s.len(),
        all_digits(s.take(i)),
        decimal_value(s.take(i)) > u64::MAX,
    ensures
        s.len() > 0,
        digit_prefix_len(s) > 0,
        decimal_value(s.take(digit_prefix_len(s) as int)) > u64::MAX,
{
    lemma_prefix_at_least(s, i);
    lemma_digit_prefix_bounded(s);
    lemma_value_monotone(s, i, digit_prefix_len(s) as int);
}

proof fn lemma_digit_prefix_bounded(s: Seq<char>)
    ensures
        digit_prefix_len(s) <= s.len(),
    decreases s.len(),
{
    if s.len() > 0 && is_digit(s[0]) {
        lemma_digit_prefix_bounded(s.drop_first());
    }
}

/// The decimal digits of `n`, most significant first.
fn digits_of(n: u64) -> (r: Vec<char>)
    ensures
        r@ == decimal_digits(n as nat),
    decreases n,
{
    if n < 10 {
        let c = char_of_digit(n);
        vec![c]
    } else {
        let mut v = digits_of(n / 10);
        let c = char_of_digit(n % 10);
        v.push(c);
        v
    }
}

fn char_of_digit(d: u64) -> (c: char)
    requires
        d < 10,
    ensures
        c == ('0' as nat + d) as char,
{
    if d == 0 { '0' }
    else if d == 1 { '1' }
    else if d == 2 { '2' }
    else if d == 3 { '3' }
    else if d == 4 { '4' }
    else if d == 5 { '5' }
    else if d == 6 { '6' }
    else if d == 7 { '7' }
    else if d == 8 { '8' }
    else { '9' }
}

} // verus!
