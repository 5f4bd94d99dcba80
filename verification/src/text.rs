use vstd::prelude::*;

verus! {

/// Character-wise equality of two strings.
pub fn same_text(a: &str, b: &str) -> (res: bool)
    ensures
        res == (a@ == b@),
{
    let n = a.unicode_len();
    if n != b.unicode_len() {
        return false;
    }
    let mut i: usize = 0;
    while i < n
        invariant
            n == a@.len(),
            n == b@.len(),
            i <= n,
            forall|j: int| 0 <= j < i ==> a@[j] == b@[j],
        decreases n - i,
    {
        if a.get_char(i) != b.get_char(i) {
            return false;
        }
        i = i + 1;
    }
    assert(a@ =~= b@);
    true
}

} // verus!

verus! {

/// The characters of a string, in order.
pub fn chars_of(s: &str) -> (v: Vec<char>)
    ensures
        v@ == s@,
{
    let n = s.unicode_len();
    let mut v: Vec<char> = Vec::new();
    let mut i: usize = 0;
    while i < n
        invariant
            n == s@.len(),
            i <= n,
            v@ == s@.take(i as int),
        decreases n - i,
    {
        v.push(s.get_char(i));
        i = i + 1;
        assert(v@ =~= s@.take(i as int));
    }
    assert(s@.take(n as int) =~= s@);
    v
}

/// Calls `String::from_iter` on the characters: the string made of them, in order.
#[verifier::external_body]
pub fn string_of_chars(cs: &Vec<char>) -> (s: String)
    ensures
        s@ == cs@,
{
    cs.iter().collect()
}

/// A Unicode `White_Space` character, as `char::is_whitespace` (and so
/// `str::trim`) reads it.
pub open spec fn is_white(c: char) -> bool {
    let u = c as u32;
    ||| 0x09 <= u <= 0x0d
    ||| u == 0x20
    ||| u == 0x85
    ||| u == 0xa0
    ||| u == 0x1680
    ||| 0x2000 <= u <= 0x200a
    ||| u == 0x2028
    ||| u == 0x2029
    ||| u == 0x202f
    ||| u == 0x205f
    ||| u == 0x3000
}

pub fn is_white_exec(c: char) -> (b: bool)
    ensures
        b == is_white(c),
{
    let u = c as u32;
    (0x09 <= u && u <= 0x0d) || u == 0x20 || u == 0x85 || u == 0xa0 || u == 0x1680 || (0x2000 <= u
        && u <= 0x200a) || u == 0x2028 || u == 0x2029 || u == 0x202f || u == 0x205f || u == 0x3000
}

/// Number of white-space characters that open `s`.
pub open spec fn leading_white(s: Seq<char>) -> nat
    decreases s.len(),
{
    if s.len() > 0 && is_white(s[0]) {
        1 + leading_white(s.drop_first())
    } else {
        0
    }
}

/// Number of white-space characters that close `s`.
pub open spec fn trailing_white(s: Seq<char>) -> nat
    decreases s.len(),
{
    if s.len() > 0 && is_white(s.last()) {
        1 + trailing_white(s.drop_last())
    } else {
        0
    }
}

/// `s` without leading and trailing white space, as `str::trim` gives it.
pub open spec fn trimmed(s: Seq<char>) -> Seq<char> {
    if leading_white(s) == s.len() {
        Seq::empty()
    } else {
        s.subrange(leading_white(s) as int, s.len() - trailing_white(s))
    }
}

pub(crate) proof fn lemma_leading_white(s: Seq<char>, k: int)
    requires
        0 <= k <= s.len(),
        forall|j: int| 0 <= j < k ==> is_white(s[j]),
        k == s.len() || !is_white(s[k]),
    ensures
        leading_white(s) == k,
    decreases k,
{
    if k > 0 {
        let t = s.drop_first();
        assert forall|j: int| 0 <= j < k - 1 implies is_white(t[j]) by {
            assert(t[j] == s[j + 1]);
        }
        if k < s.len() {
            assert(t[k - 1] == s[k]);
        }
        lemma_leading_white(t, k - 1);
    }
}

pub(crate) proof fn lemma_trailing_white(s: Seq<char>, b: int)
    requires
        0 <= b <= s.len(),
        forall|j: int| b <= j < s.len() ==> is_white(s[j]),
        b == 0 || !is_white(s[b - 1]),
    ensures
        trailing_white(s) == s.len() - b,
    decreases s.len() - b,
{
    if b < s.len() {
        let t = s.drop_last();
        assert forall|j: int| b <= j < t.len() implies is_white(t[j]) by {
            assert(t[j] == s[j]);
        }
        if b > 0 {
            assert(t[b - 1] == s[b - 1]);
        }
        lemma_trailing_white(t, b);
    }
}

/// Bounds `(start, end)` of the trimmed part of `cs`.
pub fn trim_bounds(cs: &Vec<char>) -> (r: (usize, usize))
    ensures
        r.0 <= r.1 <= cs@.len(),
        cs@.subrange(r.0 as int, r.1 as int) == trimmed(cs@),
{
    let n = cs.len();
    let mut a: usize = 0;
    while a < n && is_white_exec(cs[a])
        invariant
            n == cs@.len(),
            a <= n,
            forall|j: int| 0 <= j < a ==> is_white(cs@[j]),
        decreases n - a,
    {
        a = a + 1;
    }
    proof {
        lemma_leading_white(cs@, a as int);
    }
    if a == n {
        assert(cs@.subrange(a as int, a as int) =~= Seq::<char>::empty());
        return (a, a);
    }
    let mut b: usize = n;
    while b > a && is_white_exec(cs[b - 1])
        invariant
            n == cs@.len(),
            a < n,
            !is_white(cs@[a as int]),
            a <= b <= n,
            forall|j: int| b <= j < n ==> is_white(cs@[j]),
        decreases b,
    {
        b = b - 1;
    }
    proof {
        lemma_trailing_white(cs@, b as int);
    }
    (a, b)
}

/// The string without leading and trailing white space (`str::trim`).
pub fn trim(s: &str) -> (res: String)
    ensures
        res@ == trimmed(s@),
{
    let cs = chars_of(s);
    let (a, b) = trim_bounds(&cs);
    s.substring_char(a, b).to_owned()
}

/// The ASCII digit character for `d` (0 to 9).
pub open spec fn digit_char(d: int) -> char {
    (48 + d) as char
}

pub open spec fn is_digit(c: char) -> bool {
    48 <= c as u32 <= 57
}

pub open spec fn digit_value(c: char) -> int {
    c as u32 - 48
}

/// Decimal digits of `n`, most significant first, without leading zeros.
pub open spec fn digits_of(n: nat) -> Seq<char>
    decreases n,
{
    if n < 10 {
        seq![digit_char(n as int)]
    } else {
        digits_of(n / 10).push(digit_char((n % 10) as int))
    }
}

/// `n` written in decimal, with a `-` in front when negative (as `Display` writes integers).
pub open spec fn decimal(n: int) -> Seq<char> {
    if n < 0 {
        seq!['-'] + digits_of((-n) as nat)
    } else {
        digits_of(n as nat)
    }
}

/// The number that a string of decimal digits spells.
pub open spec fn value_of(ds: Seq<char>) -> int
    decreases ds.len(),
{
    if ds.len() == 0 {
        0
    } else {
        value_of(ds.drop_last()) * 10 + digit_value(ds.last())
    }
}

pub open spec fn all_digits(ds: Seq<char>) -> bool {
    forall|i: int| 0 <= i < ds.len() ==> is_digit(#[trigger] ds[i])
}

/// What `str::parse::<i32>` gives: an optional `+` or `-`, then one or more
/// ASCII digits whose value (with the sign) fits an `i32`; `None` otherwise.
pub open spec fn parse_i32_spec(s: Seq<char>) -> Option<i32> {
    let neg = s.len() > 0 && s[0] == '-';
    let ds = if s.len() > 0 && (s[0] == '-' || s[0] == '+') {
        s.drop_first()
    } else {
        s
    };
    let v = if neg {
        -value_of(ds)
    } else {
        value_of(ds)
    };
    if ds.len() == 0 || !all_digits(ds) || v < i32::MIN || v > i32::MAX {
        None
    } else {
        Some(v as i32)
    }
}

proof fn lemma_value_step(ds: Seq<char>, i: int)
    requires
        0 <= i < ds.len(),
    ensures
        value_of(ds.take(i + 1)) == value_of(ds.take(i)) * 10 + digit_value(ds[i]),
{
    assert(ds.take(i + 1).drop_last() =~= ds.take(i));
}

proof fn lemma_value_nonneg(ds: Seq<char>)
    requires
        all_digits(ds),
    ensures
        value_of(ds) >= 0,
    decreases ds.len(),
{
    if ds.len() > 0 {
        assert(all_digits(ds.drop_last())) by {
            assert forall|i: int| 0 <= i < ds.drop_last().len() implies is_digit(#[trigger] ds.drop_last()[i]) by {
                assert(ds.drop_last()[i] == ds[i]);
            }
        }
        assert(is_digit(ds[ds.len() - 1]));
        lemma_value_nonneg(ds.drop_last());
    }
}

proof fn lemma_value_grows(ds: Seq<char>, i: int, j: int)
    requires
        all_digits(ds),
        0 <= i <= j <= ds.len(),
    ensures
        value_of(ds.take(i)) <= value_of(ds.take(j)),
    decreases j - i,
{
    if i < j {
        lemma_value_grows(ds, i, j - 1);
        lemma_value_step(ds, j - 1);
        assert(is_digit(ds[j - 1]));
        assert(all_digits(ds.take(j - 1))) by {
            assert forall|k: int| 0 <= k < ds.take(j - 1).len() implies is_digit(#[trigger] ds.take(j - 1)[k]) by {
                assert(ds.take(j - 1)[k] == ds[k]);
            }
        }
        lemma_value_nonneg(ds.take(j - 1));
    }
}

/// Parses `cs[start..end]` as `str::parse::<i32>` does.
pub fn parse_i32_range(cs: &Vec<char>, start: usize, end: usize) -> (r: Option<i32>)
    requires
        start <= end <= cs@.len(),
    ensures
        r == parse_i32_spec(cs@.subrange(start as int, end as int)),
{
    let ghost s = cs@.subrange(start as int, end as int);
    let mut i = start;
    let mut neg = false;
    if start < end && (cs[start] == '-' || cs[start] == '+') {
        neg = cs[start] == '-';
        i = start + 1;
    }
    let ghost ds = cs@.subrange(i as int, end as int);
    assert(ds == (if s.len() > 0 && (s[0] == '-' || s[0] == '+') {
        s.drop_first()
    } else {
        s
    }));
    if i == end {
        return None;
    }
    let first = i;
    let mut acc: i64 = 0;
    while i < end
        invariant
            first <= i <= end <= cs@.len(),
            ds == cs@.subrange(first as int, end as int),
            s == cs@.subrange(start as int, end as int),
            ds == (if s.len() > 0 && (s[0] == '-' || s[0] == '+') {
                s.drop_first()
            } else {
                s
            }),
            neg == (s.len() > 0 && s[0] == '-'),
            first < end,
            all_digits(ds.take(i - first)),
            acc == value_of(ds.take(i - first)),
            0 <= acc <= 0x8000_0000,
        decreases end - i,
    {
        let c = cs[i];
        let u = c as u32;
        if u < 48 || u > 57 {
            assert(ds[i - first] == c);
            assert(!is_digit(ds[i - first]));
            assert(!all_digits(ds));
            assert(parse_i32_spec(s) is None);
            return None;
        }
        proof {
            lemma_value_step(ds, i - first);
            assert(ds[i - first] == c);
            assert(all_digits(ds.take(i - first + 1))) by {
                assert forall|k: int| 0 <= k < i - first + 1 implies is_digit(#[trigger] ds.take(i - first + 1)[k]) by {
                    if k < i - first {
                        assert(ds.take(i - first + 1)[k] == ds.take(i - first)[k]);
                    }
                }
            }
        }
        acc = acc * 10 + (u - 48) as i64;
        i = i + 1;
        if acc > 0x8000_0000 {
            // Further digits only make the value larger: it cannot fit.
            proof {
                if all_digits(ds) {
                    lemma_value_grows(ds, i - first, ds.len() as int);
                    assert(ds.take(ds.len() as int) =~= ds);
                    assert(value_of(ds) > 0x8000_0000);
                }
                assert(parse_i32_spec(s) is None);
            }
            return None;
        }
    }
    assert(ds.take(i - first) =~= ds);
    if neg {
        Some((-acc) as i32)
    } else if acc > 0x7fff_ffff {
        None
    } else {
        Some(acc as i32)
    }
}

/// The first index of `c` in `s`, or -1.
pub open spec fn index_of(s: Seq<char>, c: char) -> int
    decreases s.len(),
{
    if s.len() == 0 {
        -1
    } else if s[0] == c {
        0
    } else if index_of(s.drop_first(), c) < 0 {
        -1
    } else {
        index_of(s.drop_first(), c) + 1
    }
}

pub(crate) proof fn lemma_index_of(s: Seq<char>, c: char, k: int)
    requires
        0 <= k <= s.len(),
        forall|j: int| 0 <= j < k ==> s[j] != c,
        k == s.len() || s[k] == c,
    ensures
        index_of(s, c) == (if k == s.len() {
            -1
        } else {
            k
        }),
    decreases s.len(),
{
    if s.len() > 0 && k > 0 {
        let t = s.drop_first();
        assert forall|j: int| 0 <= j < k - 1 implies t[j] != c by {
            assert(t[j] == s[j + 1]);
        }
        if k < s.len() {
            assert(t[k - 1] == s[k]);
        }
        lemma_index_of(t, c, k - 1);
    }
}

/// First index of `c` in `cs[start..end]` (relative to `start`), or `end - start` when absent.
pub fn find_char(cs: &Vec<char>, start: usize, end: usize, c: char) -> (k: usize)
    requires
        start <= end <= cs@.len(),
    ensures
        k <= end - start,
        index_of(cs@.subrange(start as int, end as int), c) == (if k == end - start {
            -1
        } else {
            k as int
        }),
{
    let ghost s = cs@.subrange(start as int, end as int);
    let mut i = start;
    while i < end && cs[i] != c
        invariant
            start <= i <= end <= cs@.len(),
            s == cs@.subrange(start as int, end as int),
            forall|j: int| 0 <= j < i - start ==> s[j] != c,
        decreases end - i,
    {
        i = i + 1;
    }
    proof {
        lemma_index_of(s, c, i - start);
    }
    i - start
}

/// The decimal digits of `n`.
pub fn digits_u32(n: u32) -> (ds: Vec<char>)
    ensures
        ds@ == digits_of(n as nat),
    decreases n,
{
    let d = n % 10;
    let c = ((48 + d) as u8) as char;
    assert(c == digit_char(d as int));
    if n < 10 {
        let mut v: Vec<char> = Vec::new();
        v.push(c);
        assert(v@ =~= seq![digit_char(n as int)]);
        v
    } else {
        let mut v = digits_u32(n / 10);
        v.push(c);
        v
    }
}

/// `n` written in decimal, as `format!("{n}")` writes it.
pub fn decimal_i32(n: i32) -> (ds: Vec<char>)
    ensures
        ds@ == decimal(n as int),
{
    if n < 0 {
        let m = (-(n as i64)) as u32;
        let digits = digits_u32(m);
        let mut v: Vec<char> = Vec::new();
        v.push('-');
        let mut i: usize = 0;
        while i < digits.len()
            invariant
                i <= digits@.len(),
                v@ == seq!['-'] + digits@.take(i as int),
            decreases digits.len() - i,
        {
            v.push(digits[i]);
            i = i + 1;
            assert(v@ =~= seq!['-'] + digits@.take(i as int));
        }
        assert(digits@.take(digits@.len() as int) =~= digits@);
        v
    } else {
        digits_u32(n as u32)
    }
}

proof fn lemma_digits_spell(n: nat)
    ensures
        all_digits(digits_of(n)),
        value_of(digits_of(n)) == n,
        digits_of(n).len() > 0,
    decreases n,
{
    if n < 10 {
        assert(digit_char(n as int) as u32 == 48 + n);
        assert(digits_of(n).drop_last() =~= Seq::<char>::empty());
        assert(value_of(digits_of(n)) == value_of(Seq::<char>::empty()) * 10 + digit_value(digit_char(n as int)));
    } else {
        lemma_digits_spell(n / 10);
        let ds = digits_of(n);
        assert(ds.drop_last() =~= digits_of(n / 10));
        let d = (n % 10) as int;
        assert(digit_char(d) as u32 == 48 + d);
        assert(digit_value(ds.last()) == d);
        assert(value_of(ds) == value_of(ds.drop_last()) * 10 + digit_value(ds.last()));
        assert(n as int == (n as int / 10) * 10 + n as int % 10) by (nonlinear_arith);
        assert forall|i: int| 0 <= i < ds.len() implies is_digit(#[trigger] ds[i]) by {
            if i < ds.len() - 1 {
                assert(ds[i] == digits_of(n / 10)[i]);
            }
        }
    }
}

/// A decimal number reads back as itself: `parse(format(n)) == n`.
pub proof fn decimal_parses_back(n: i32)
    ensures
        parse_i32_spec(decimal(n as int)) == Some(n),
        forall|i: int| 0 <= i < decimal(n as int).len() ==> #[trigger] decimal(n as int)[i] != ','
            && !is_white(decimal(n as int)[i]),
{
    if n < 0 {
        let m = (-n) as nat;
        lemma_digits_spell(m);
        let s = decimal(n as int);
        assert(s[0] == '-');
        assert(s.drop_first() =~= digits_of(m));
        assert forall|i: int| 0 <= i < s.len() implies #[trigger] s[i] != ',' && !is_white(s[i]) by {
            if i > 0 {
                assert(s[i] == digits_of(m)[i - 1]);
                assert(is_digit(digits_of(m)[i - 1]));
            }
        }
    } else {
        lemma_digits_spell(n as nat);
        let s = decimal(n as int);
        assert forall|i: int| 0 <= i < s.len() implies #[trigger] s[i] != ',' && !is_white(s[i]) by {
            assert(is_digit(s[i]));
        }
        assert(is_digit(s[0]));
    }
}

} // verus!
