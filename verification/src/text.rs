//! Text helpers: substring tests, numbers in decimal, and lists of ranges.

use vstd::prelude::*;
use vstd::string::*;

verus! {

/// Whether `pat` occurs in `s` at character `i`.
pub open spec fn occurs_at(s: Seq<char>, pat: Seq<char>, i: int) -> bool {
    0 <= i && i + pat.len() <= s.len() && s.subrange(i, i + pat.len()) == pat
}

/// Whether `pat` occurs anywhere in `s`.
pub open spec fn occurs(s: Seq<char>, pat: Seq<char>) -> bool {
    exists|i: int| occurs_at(s, pat, i)
}

/// Whether `s` begins with `pat`.
pub open spec fn begins(s: Seq<char>, pat: Seq<char>) -> bool {
    occurs_at(s, pat, 0)
}

/// Whether `s` ends with `pat`.
pub open spec fn ends(s: Seq<char>, pat: Seq<char>) -> bool {
    occurs_at(s, pat, s.len() - pat.len())
}

/// `a` and `b` are what stands before and after the first `pat` in `s`.
pub open spec fn splits_at_first(s: Seq<char>, pat: Seq<char>, a: Seq<char>, b: Seq<char>) -> bool {
    &&& s == a + pat + b
    &&& forall|i: int| 0 <= i < a.len() ==> !#[trigger] occurs_at(s, pat, i)
}

/// Calls `str::contains` with a string pattern: true exactly when the pattern is a
/// substring.
#[verifier::external_body]
pub(crate) fn contains(s: &str, pat: &str) -> (r: bool)
    ensures
        r == occurs(s@, pat@),
{
    s.contains(pat)
}

/// Calls `str::starts_with` with a string pattern: true exactly when the pattern is
/// a prefix.
#[verifier::external_body]
pub(crate) fn starts_with(s: &str, pat: &str) -> (r: bool)
    ensures
        r == begins(s@, pat@),
{
    s.starts_with(pat)
}

/// Calls `str::ends_with` with a string pattern: true exactly when the pattern is a
/// suffix.
#[verifier::external_body]
pub(crate) fn ends_with(s: &str, pat: &str) -> (r: bool)
    ensures
        r == ends(s@, pat@),
{
    s.ends_with(pat)
}

/// Calls `str::split_once` with a string pattern: the parts before and after the
/// first occurrence, or nothing when there is none.
#[verifier::external_body]
fn split_once<'a>(s: &'a str, pat: &str) -> (r: Option<(&'a str, &'a str)>)
    ensures
        r is Some <==> occurs(s@, pat@),
        r matches Some((a, b)) ==> splits_at_first(s@, pat@, a@, b@),
{
    s.split_once(pat)
}

/// What stands before the first `pat`, and what stands after it.
pub open spec fn split_first(s: Seq<char>, pat: Seq<char>) -> Option<(Seq<char>, Seq<char>)>
    decreases s.len(),
{
    if begins(s, pat) {
        Some((Seq::empty(), s.skip(pat.len() as int)))
    } else if s.len() == 0 {
        None
    } else {
        match split_first(s.skip(1), pat) {
            None => None,
            Some((a, b)) => Some((seq![s[0]] + a, b)),
        }
    }
}

/// The parts before and after the first `pat` are unique.
proof fn lemma_split_unique(s: Seq<char>, pat: Seq<char>, a: Seq<char>, b: Seq<char>)
    requires
        pat.len() > 0,
        splits_at_first(s, pat, a, b),
    ensures
        split_first(s, pat) == Some((a, b)),
    decreases s.len(),
{
    if a.len() == 0 {
        assert(s.subrange(0, pat.len() as int) =~= pat);
        assert(s.skip(pat.len() as int) =~= b);
        assert(a =~= Seq::empty());
    } else {
        assert(!occurs_at(s, pat, 0));
        let (s1, a1) = (s.skip(1), a.skip(1));
        assert(s1 =~= a1 + pat + b);
        assert forall|i: int| 0 <= i < a1.len() implies !#[trigger] occurs_at(s1, pat, i) by {
            assert(!occurs_at(s, pat, i + 1));
            if i + pat.len() <= s1.len() {
                assert(s1.subrange(i, i + pat.len()) =~= s.subrange(i + 1, i + 1 + pat.len()));
            }
        }
        lemma_split_unique(s1, pat, a1, b);
        assert(seq![s[0]] + a1 =~= a);
    }
}

proof fn lemma_split_absent(s: Seq<char>, pat: Seq<char>)
    requires
        pat.len() > 0,
        !occurs(s, pat),
    ensures
        split_first(s, pat) is None,
    decreases s.len(),
{
    assert(!occurs_at(s, pat, 0));
    if s.len() > 0 {
        let s1 = s.skip(1);
        if occurs(s1, pat) {
            let i = choose|i: int| occurs_at(s1, pat, i);
            assert(s.subrange(i + 1, i + 1 + pat.len()) =~= s1.subrange(i, i + pat.len()));
            assert(occurs_at(s, pat, i + 1));
        }
        lemma_split_absent(s1, pat);
    }
}

/// What stands before and after the first `pat`.
pub fn split_at_first<'a>(s: &'a str, pat: &str) -> (r: Option<(&'a str, &'a str)>)
    requires
        pat@.len() > 0,
    ensures
        r is Some <==> split_first(s@, pat@) is Some,
        r matches Some((a, b)) ==> split_first(s@, pat@) == Some((a@, b@)),
        r matches Some((a, b)) ==> b@.len() < s@.len(),
{
    let r = split_once(s, pat);
    proof {
        match r {
            Some((a, b)) => {
                lemma_split_unique(s@, pat@, a@, b@);
            },
            None => {
                lemma_split_absent(s@, pat@);
            },
        }
    }
    r
}

/// Two texts, one after the other.
pub fn joined(a: &str, b: &str) -> (r: String)
    ensures
        r@ == a@ + b@,
{
    let mut r: String = a.to_owned();
    r.append(b);
    r
}

/// Whether two texts are the same.
pub fn same_text(a: &str, b: &str) -> (r: bool)
    ensures
        r == (a@ == b@),
{
    let x: String = a.to_owned();
    let y: String = b.to_owned();
    x == y
}

// ---- decimal numbers ----

/// The digit `d` as a character.
pub open spec fn digit_char(d: nat) -> char {
    (('0' as nat) + d) as char
}

/// `n` in decimal, without leading zeros.
pub open spec fn decimal(n: nat) -> Seq<char>
    decreases n,
{
    if n < 10 {
        seq![digit_char(n)]
    } else {
        decimal(n / 10).push(digit_char(n % 10))
    }
}

fn digit_text(d: usize) -> (r: &'static str)
    requires
        d < 10,
    ensures
        r@ == seq![digit_char(d as nat)],
{
    proof {
        reveal_strlit("0");
        reveal_strlit("1");
        reveal_strlit("2");
        reveal_strlit("3");
        reveal_strlit("4");
        reveal_strlit("5");
        reveal_strlit("6");
        reveal_strlit("7");
        reveal_strlit("8");
        reveal_strlit("9");
    }
    let r = match d {
        0 => "0",
        1 => "1",
        2 => "2",
        3 => "3",
        4 => "4",
        5 => "5",
        6 => "6",
        7 => "7",
        8 => "8",
        _ => "9",
    };
    assert(r@ =~= seq![digit_char(d as nat)]);
    r
}

/// `n` in decimal.
pub fn decimal_text(n: usize) -> (r: String)
    ensures
        r@ == decimal(n as nat),
    decreases n,
{
    if n < 10 {
        digit_text(n).to_owned()
    } else {
        let mut r = decimal_text(n / 10);
        r.append(digit_text(n % 10));
        assert(r@ =~= decimal(n as nat));
        r
    }
}

/// Whether `c` is one of the ten digits.
pub open spec fn is_digit(c: char) -> bool {
    '0' <= c && c <= '9'
}

/// The number that a run of digits denotes.
pub open spec fn digits_value(s: Seq<char>) -> nat
    decreases s.len(),
{
    if s.len() == 0 {
        0
    } else {
        (digits_value(s.drop_last()) * 10 + (s.last() as nat - '0' as nat)) as nat
    }
}

/// A number's text without the plus sign it may begin with.
pub open spec fn unsigned_part(s: Seq<char>) -> Seq<char> {
    if s.len() > 0 && s[0] == '+' {
        s.skip(1)
    } else {
        s
    }
}

/// Whether every character is a digit.
pub open spec fn all_digits(s: Seq<char>) -> bool {
    forall|i: int| 0 <= i < s.len() ==> is_digit(#[trigger] s[i])
}

/// What a decimal text denotes: an optional plus sign, then digits only, at least
/// one, and a value of at most `max`.
pub open spec fn parsed(s: Seq<char>, max: nat) -> Option<nat> {
    let body = unsigned_part(s);
    if body.len() > 0 && all_digits(body) && digits_value(body) <= max {
        Some(digits_value(body))
    } else {
        None
    }
}

proof fn lemma_digits_value_mono(s: Seq<char>, i: int)
    requires
        0 <= i <= s.len(),
        all_digits(s),
    ensures
        digits_value(s.take(i)) <= digits_value(s),
    decreases s.len() - i,
{
    if i == s.len() {
        assert(s.take(i) =~= s);
    } else {
        lemma_digits_value_mono(s, i + 1);
        assert(s.take(i + 1).drop_last() =~= s.take(i));
        assert(is_digit(s[i]));
    }
}

/// Reads a decimal number of at most `max`.
pub fn parse_number(s: &str, max: usize) -> (r: Option<usize>)
    ensures
        r is Some <==> parsed(s@, max as nat) is Some,
        r matches Some(v) ==> v == parsed(s@, max as nat)->0,
{
    let n: usize = s.unicode_len();
    let start: usize = if n > 0 && s.get_char(0) == '+' {
        1
    } else {
        0
    };
    let ghost body = unsigned_part(s@);
    assert(body.len() == n - start);
    assert(forall|k: int| 0 <= k < body.len() ==> body[k] == s@[k + start]);
    if start == n {
        return None;
    }
    let mut value: usize = 0;
    let mut i: usize = start;
    assert(body.take(0).len() == 0);
    while i < n
        invariant
            start <= i <= n,
            n == s@.len(),
            body == unsigned_part(s@),
            body.len() == n - start,
            body.len() > 0,
            forall|k: int| 0 <= k < body.len() ==> #[trigger] body[k] == s@[k + start],
            forall|k: int| 0 <= k < i - start ==> is_digit(#[trigger] body[k]),
            value == digits_value(body.take(i - start)),
            value <= max,
        decreases n - i,
    {
        let c = s.get_char(i);
        let ghost at = i - start;
        assert(body[at] == c);
        if !('0' <= c && c <= '9') {
            assert(!is_digit(body[at]));
            return None;
        }
        let d: usize = (c as u32 - '0' as u32) as usize;
        proof {
            assert(body.take(at + 1).drop_last() =~= body.take(at));
            assert(digits_value(body.take(at + 1)) == value * 10 + d);
        }
        if value > max / 10 || d > max - value * 10 {
            proof {
                if all_digits(body) {
                    lemma_digits_value_mono(body, at + 1);
                }
            }
            return None;
        }
        value = value * 10 + d;
        i += 1;
    }
    assert(body.take(n - start) =~= body);
    Some(value)
}

// ---- whitespace ----

/// Unicode white space.
pub open spec fn is_space(c: char) -> bool {
    let u = c as u32;
    ||| 0x9 <= u <= 0xd
    ||| u == 0x20
    ||| u == 0x85
    ||| u == 0xa0
    ||| u == 0x1680
    ||| 0x2000 <= u <= 0x200a
    ||| u == 0x2028
    ||| u == 0x2029
    ||| u == 0x202f
    ||| u == 0x205f
    ||| u == 0x3000
}

fn space(c: char) -> (r: bool)
    ensures
        r == is_space(c),
{
    let u: u32 = c as u32;
    (0x9 <= u && u <= 0xd) || u == 0x20 || u == 0x85 || u == 0xa0 || u == 0x1680 || (0x2000 <= u
        && u <= 0x200a) || u == 0x2028 || u == 0x2029 || u == 0x202f || u == 0x205f || u == 0x3000
}

/// `s` without leading and trailing white space.
pub open spec fn trimmed(s: Seq<char>) -> Seq<char>
    decreases s.len(),
{
    if s.len() == 0 {
        s
    } else if is_space(s[0]) {
        trimmed(s.skip(1))
    } else if is_space(s.last()) {
        trimmed(s.drop_last())
    } else {
        s
    }
}

/// `s` without leading and trailing white space.
pub fn trim(s: &str) -> (r: &str)
    ensures
        r@ == trimmed(s@),
{
    let n: usize = s.unicode_len();
    let mut from: usize = 0;
    assert(s@.subrange(0, n as int) =~= s@);
    while from < n && space(s.get_char(from))
        invariant
            from <= n,
            n == s@.len(),
            trimmed(s@.subrange(from as int, n as int)) == trimmed(s@),
        ensures
            from <= n,
            trimmed(s@.subrange(from as int, n as int)) == trimmed(s@),
            from < n ==> !is_space(s@[from as int]),
        decreases n - from,
    {
        assert(s@.subrange(from as int, n as int).skip(1) =~= s@.subrange(from + 1, n as int));
        from += 1;
    }
    let mut to: usize = n;
    while from < to && space(s.get_char(to - 1))
        invariant
            from <= to <= n,
            n == s@.len(),
            from < n ==> !is_space(s@[from as int]),
            trimmed(s@.subrange(from as int, to as int)) == trimmed(s@),
        ensures
            from <= to <= n,
            trimmed(s@.subrange(from as int, to as int)) == trimmed(s@),
            from < to ==> !is_space(s@[to - 1]),
        decreases to - from,
    {
        assert(s@.subrange(from as int, to as int).drop_last() =~= s@.subrange(
            from as int,
            to - 1,
        ));
        to -= 1;
    }
    s.substring_char(from, to)
}

// ---- laws ----

/// A number is read back from its own text, with or without a plus sign.
pub proof fn law_number_round_trip(n: nat, max: nat)
    requires
        n <= max,
    ensures
        parsed(decimal(n), max) == Some(n),
        parsed(seq!['+'] + decimal(n), max) == Some(n),
        decimal(n).len() > 0,
        all_digits(decimal(n)),
{
    lemma_decimal(n);
    let s = seq!['+'] + decimal(n);
    assert(s.skip(1) =~= decimal(n));
    assert(is_digit(decimal(n)[0]));
}

/// Different numbers have different texts.
pub proof fn law_numbers_told_apart(a: nat, b: nat)
    requires
        decimal(a) == decimal(b),
    ensures
        a == b,
{
    lemma_decimal(a);
    lemma_decimal(b);
}

proof fn lemma_decimal(n: nat)
    ensures
        decimal(n).len() > 0,
        all_digits(decimal(n)),
        digits_value(decimal(n)) == n,
    decreases n,
{
    reveal_with_fuel(digits_value, 2);
    let s = decimal(n);
    if n < 10 {
        assert(s.drop_last() =~= Seq::empty());
    } else {
        lemma_decimal(n / 10);
        assert(s.drop_last() =~= decimal(n / 10));
    }
}

/// A split gives back the text: what stands before and after the pattern, with the pattern
/// between them, and no earlier occurrence.
pub proof fn law_split_rejoins(s: Seq<char>, pat: Seq<char>)
    requires
        pat.len() > 0,
    ensures
        split_first(s, pat) matches Some((a, b)) ==> splits_at_first(s, pat, a, b),
        split_first(s, pat) is Some <==> occurs(s, pat),
    decreases s.len(),
{
    if begins(s, pat) {
        assert(occurs_at(s, pat, 0));
        let b = s.skip(pat.len() as int);
        assert(s =~= Seq::<char>::empty() + pat + b);
    } else if occurs(s, pat) {
        let i = choose|i: int| occurs_at(s, pat, i);
        let s1 = s.skip(1);
        assert(s1.subrange(i - 1, i - 1 + pat.len()) =~= s.subrange(i, i + pat.len()));
        assert(occurs_at(s1, pat, i - 1));
        law_split_rejoins(s1, pat);
        let (a1, b) = split_first(s1, pat)->0;
        let a = seq![s[0]] + a1;
        assert(s1 == a1 + pat + b);
        assert(s =~= seq![s[0]] + s1);
        assert(seq![s[0]] + (a1 + pat + b) =~= a + pat + b);
        assert forall|k: int| 0 <= k < a.len() implies !#[trigger] occurs_at(s, pat, k) by {
            if k > 0 {
                assert(!occurs_at(s1, pat, k - 1));
                if k + pat.len() <= s.len() {
                    assert(s1.subrange(k - 1, k - 1 + pat.len()) =~= s.subrange(
                        k,
                        k + pat.len(),
                    ));
                }
            }
        }
    } else {
        lemma_split_absent(s, pat);
    }
}

/// `t` is what `s` holds from `at` on, and all around it is white space.
pub open spec fn core_of(s: Seq<char>, t: Seq<char>, at: int) -> bool {
    &&& 0 <= at <= s.len() - t.len()
    &&& t == s.subrange(at, at + t.len())
    &&& forall|i: int| 0 <= i < at ==> is_space(#[trigger] s[i])
    &&& forall|i: int| at + t.len() <= i < s.len() ==> is_space(#[trigger] s[i])
}

proof fn lemma_core_behind(s: Seq<char>, t: Seq<char>, at: int)
    requires
        s.len() > 0,
        is_space(s[0]),
        core_of(s.skip(1), t, at),
    ensures
        core_of(s, t, at + 1),
{
    let rest = s.skip(1);
    assert(t =~= s.subrange(at + 1, at + 1 + t.len()));
    assert forall|i: int| 0 <= i < at + 1 implies is_space(#[trigger] s[i]) by {
        if i > 0 {
            assert(rest[i - 1] == s[i]);
        }
    }
    assert forall|i: int| at + 1 + t.len() <= i < s.len() implies is_space(#[trigger] s[i]) by {
        assert(rest[i - 1] == s[i]);
    }
}

proof fn lemma_core_before(s: Seq<char>, t: Seq<char>, at: int)
    requires
        s.len() > 0,
        is_space(s.last()),
        core_of(s.drop_last(), t, at),
    ensures
        core_of(s, t, at),
{
    let rest = s.drop_last();
    assert(t =~= s.subrange(at, at + t.len()));
    assert forall|i: int| 0 <= i < at implies is_space(#[trigger] s[i]) by {
        assert(rest[i] == s[i]);
    }
    assert forall|i: int| at + t.len() <= i < s.len() implies is_space(#[trigger] s[i]) by {
        if i < rest.len() {
            assert(rest[i] == s[i]);
        }
    }
}

/// Trimming takes white space off both ends and nothing else.
pub proof fn law_trimmed(s: Seq<char>) -> (at: int)
    ensures
        core_of(s, trimmed(s), at),
        trimmed(s).len() > 0 ==> !is_space(trimmed(s)[0]) && !is_space(trimmed(s).last()),
    decreases s.len(),
{
    if s.len() == 0 {
        assert(s =~= s.subrange(0, 0));
        0
    } else if is_space(s[0]) {
        let at = law_trimmed(s.skip(1));
        lemma_core_behind(s, trimmed(s.skip(1)), at);
        at + 1
    } else if is_space(s.last()) {
        let at = law_trimmed(s.drop_last());
        lemma_core_before(s, trimmed(s.drop_last()), at);
        at
    } else {
        assert(s =~= s.subrange(0, s.len() as int));
        0
    }
}

} // verus!
