use vstd::prelude::*;

verus! {

/// Appends one character to a string (`String::push`).
#[verifier::external_body]
pub(crate) fn push_char(s: &mut String, c: char)
    ensures
        final(s)@ == old(s)@.push(c),
{
    s.push(c);
}

/// The views of a sequence of strings.
pub open spec fn string_views(v: Seq<String>) -> Seq<Seq<char>> {
    v.map_values(|s: String| s@)
}

/// The characters of `s`, in order.
pub fn chars_of(s: &str) -> (v: Vec<char>)
    ensures
        v@ == s@,
{
    let mut v: Vec<char> = Vec::new();
    for c in it: s.chars()
        invariant
            v@ == it.seq().take(it.index() as int),
            it.seq() == s@,
    {
        v.push(c);
    }
    v
}

/// The string made of the characters of `v`.
pub fn string_of(v: &Vec<char>) -> (s: String)
    ensures
        s@ == v@,
{
    let mut s = String::new();
    let n = v.len();
    for i in 0..n
        invariant
            n == v.len(),
            s@ == v@.take(i as int),
    {
        push_char(&mut s, v[i]);
        assert(v@.take(i + 1) == v@.take(i as int).push(v@[i as int]));
    }
    assert(v@.take(n as int) == v@);
    s
}

/// Appends the characters of `v` to `s`.
pub fn push_chars(s: &mut String, v: &Vec<char>)
    ensures
        final(s)@ == old(s)@ + v@,
{
    let n = v.len();
    let ghost start = s@;
    for i in 0..n
        invariant
            n == v.len(),
            s@ == start + v@.take(i as int),
    {
        push_char(s, v[i]);
        assert(v@.take(i + 1) == v@.take(i as int).push(v@[i as int]));
    }
    assert(v@.take(n as int) == v@);
}

/// Whether two character sequences are equal.
pub fn chars_eq(a: &Vec<char>, b: &Vec<char>) -> (r: bool)
    ensures
        r == (a@ == b@),
{
    if a.len() != b.len() {
        return false;
    }
    let n = a.len();
    for i in 0..n
        invariant
            n == a.len(),
            n == b.len(),
            forall|j: int| 0 <= j < i ==> a@[j] == b@[j],
    {
        if a[i] != b[i] {
            return false;
        }
    }
    assert(a@ =~= b@);
    true
}

/// The ASCII decimal digit for `d < 10`.
pub open spec fn digit_char(d: nat) -> char {
    if d == 0 {
        '0'
    } else if d == 1 {
        '1'
    } else if d == 2 {
        '2'
    } else if d == 3 {
        '3'
    } else if d == 4 {
        '4'
    } else if d == 5 {
        '5'
    } else if d == 6 {
        '6'
    } else if d == 7 {
        '7'
    } else if d == 8 {
        '8'
    } else {
        '9'
    }
}

/// Whether `c` is an ASCII decimal digit.
pub open spec fn is_digit(c: char) -> bool {
    '0' <= c <= '9'
}

/// The value of an ASCII decimal digit.
pub open spec fn digit_value(c: char) -> nat {
    (c as int - '0' as int) as nat
}

/// The number written by a sequence of decimal digits (most significant first).
pub open spec fn digits_value(s: Seq<char>) -> nat
    decreases s.len(),
{
    if s.len() == 0 {
        0
    } else {
        digits_value(s.drop_last()) * 10 + digit_value(s.last())
    }
}

/// The shortest decimal representation of `n`, as `format!("{}", n)` writes it.
pub open spec fn decimal(n: nat) -> Seq<char>
    decreases n,
{
    if n < 10 {
        seq![digit_char(n)]
    } else {
        decimal(n / 10).push(digit_char(n % 10))
    }
}

/// `s` left-padded with zeros to at least `width` characters, as `{:0width$}` writes it.
pub open spec fn zero_padded(s: Seq<char>, width: nat) -> Seq<char> {
    if s.len() >= width {
        s
    } else {
        Seq::new((width - s.len()) as nat, |i: int| '0') + s
    }
}

fn digit_of(d: u64) -> (c: char)
    requires
        d < 10,
    ensures
        c == digit_char(d as nat),
{
    if d == 0 {
        '0'
    } else if d == 1 {
        '1'
    } else if d == 2 {
        '2'
    } else if d == 3 {
        '3'
    } else if d == 4 {
        '4'
    } else if d == 5 {
        '5'
    } else if d == 6 {
        '6'
    } else if d == 7 {
        '7'
    } else if d == 8 {
        '8'
    } else {
        '9'
    }
}

/// The decimal digits of `n`, most significant first.
pub fn decimal_chars(n: u64) -> (v: Vec<char>)
    ensures
        v@ == decimal(n as nat),
    decreases n,
{
    if n < 10 {
        let mut v = Vec::new();
        v.push(digit_of(n));
        v
    } else {
        let mut v = decimal_chars(n / 10);
        v.push(digit_of(n % 10));
        v
    }
}

/// Appends the decimal representation of `n` to `s`.
pub fn push_decimal(s: &mut String, n: u64)
    ensures
        final(s)@ == old(s)@ + decimal(n as nat),
{
    let v = decimal_chars(n);
    push_chars(s, &v);
}

/// Appends the decimal representation of `n`, zero-padded to `width` characters, to `s`.
pub fn push_zero_padded(s: &mut String, n: u64, width: usize)
    ensures
        final(s)@ == old(s)@ + zero_padded(decimal(n as nat), width as nat),
{
    let v = decimal_chars(n);
    let ghost start = s@;
    if v.len() < width {
        let pad = width - v.len();
        for i in 0..pad
            invariant
                s@ == start + Seq::new(i as nat, |j: int| '0'),
        {
            push_char(s, '0');
            assert(Seq::new((i + 1) as nat, |j: int| '0') =~= Seq::new(i as nat, |j: int| '0').push('0'));
        }
    }
    let ghost mid = s@;
    push_chars(s, &v);
    assert(s@ =~= start + zero_padded(decimal(n as nat), width as nat));
}

/// Whether `c` has the Unicode `White_Space` property, as `char::is_whitespace` documents.
pub open spec fn is_whitespace(c: char) -> bool {
    ||| '\u{9}' <= c <= '\u{d}'
    ||| c == ' '
    ||| c == '\u{85}'
    ||| c == '\u{a0}'
    ||| c == '\u{1680}'
    ||| '\u{2000}' <= c <= '\u{200a}'
    ||| c == '\u{2028}'
    ||| c == '\u{2029}'
    ||| c == '\u{202f}'
    ||| c == '\u{205f}'
    ||| c == '\u{3000}'
}

fn is_whitespace_char(c: char) -> (r: bool)
    ensures
        r == is_whitespace(c),
{
    ('\u{9}' <= c && c <= '\u{d}') || c == ' ' || c == '\u{85}' || c == '\u{a0}' || c
        == '\u{1680}' || ('\u{2000}' <= c && c <= '\u{200a}') || c == '\u{2028}' || c
        == '\u{2029}' || c == '\u{202f}' || c == '\u{205f}' || c == '\u{3000}'
}

/// Number of leading whitespace characters of `s`.
pub open spec fn leading_ws(s: Seq<char>) -> nat
    decreases s.len(),
{
    if s.len() > 0 && is_whitespace(s[0]) {
        1 + leading_ws(s.drop_first())
    } else {
        0
    }
}

/// Number of trailing whitespace characters of `s`.
pub open spec fn trailing_ws(s: Seq<char>) -> nat
    decreases s.len(),
{
    if s.len() > 0 && is_whitespace(s.last()) {
        1 + trailing_ws(s.drop_last())
    } else {
        0
    }
}

/// `s` without leading and trailing whitespace, as `str::trim` returns it.
pub open spec fn trimmed(s: Seq<char>) -> Seq<char> {
    let front = s.skip(leading_ws(s) as int);
    front.take(front.len() - trailing_ws(front))
}

proof fn lemma_leading_ws_bound(s: Seq<char>)
    ensures
        leading_ws(s) <= s.len(),
        forall|i: int| 0 <= i < leading_ws(s) ==> is_whitespace(#[trigger] s[i]),
        leading_ws(s) < s.len() ==> !is_whitespace(s[leading_ws(s) as int]),
    decreases s.len(),
{
    if s.len() > 0 && is_whitespace(s[0]) {
        lemma_leading_ws_bound(s.drop_first());
        assert forall|i: int| 0 <= i < leading_ws(s) implies is_whitespace(#[trigger] s[i]) by {
            if i > 0 {
                assert(s[i] == s.drop_first()[i - 1]);
            }
        }
    }
}

proof fn lemma_trailing_ws_bound(s: Seq<char>)
    ensures
        trailing_ws(s) <= s.len(),
        forall|i: int| s.len() - trailing_ws(s) <= i < s.len() ==> is_whitespace(#[trigger] s[i]),
        trailing_ws(s) < s.len() ==> !is_whitespace(s[s.len() - trailing_ws(s) - 1]),
    decreases s.len(),
{
    if s.len() > 0 && is_whitespace(s.last()) {
        lemma_trailing_ws_bound(s.drop_last());
        assert forall|i: int| s.len() - trailing_ws(s) <= i < s.len() implies is_whitespace(
            #[trigger] s[i],
        ) by {
            if i < s.len() - 1 {
                assert(s[i] == s.drop_last()[i]);
            }
        }
    }
}

proof fn lemma_leading_ws_exact(s: Seq<char>, k: int)
    requires
        0 <= k <= s.len(),
        forall|i: int| 0 <= i < k ==> is_whitespace(#[trigger] s[i]),
        k < s.len() ==> !is_whitespace(s[k]),
    ensures
        leading_ws(s) == k,
    decreases s.len(),
{
    if k > 0 {
        assert(is_whitespace(s[0]));
        let t = s.drop_first();
        assert forall|i: int| 0 <= i < k - 1 implies is_whitespace(#[trigger] t[i]) by {
            assert(t[i] == s[i + 1]);
        }
        if k - 1 < t.len() {
            assert(t[k - 1] == s[k]);
        }
        lemma_leading_ws_exact(t, k - 1);
    }
}

proof fn lemma_trailing_ws_exact(s: Seq<char>, k: int)
    requires
        0 <= k <= s.len(),
        forall|i: int| s.len() - k <= i < s.len() ==> is_whitespace(#[trigger] s[i]),
        k < s.len() ==> !is_whitespace(s[s.len() - k - 1]),
    ensures
        trailing_ws(s) == k,
    decreases s.len(),
{
    if k > 0 {
        assert(is_whitespace(s[s.len() - 1]));
        let t = s.drop_last();
        assert forall|i: int| t.len() - (k - 1) <= i < t.len() implies is_whitespace(
            #[trigger] t[i],
        ) by {
            assert(t[i] == s[i]);
        }
        if k - 1 < t.len() {
            assert(t[t.len() - (k - 1) - 1] == s[s.len() - k - 1]);
        }
        lemma_trailing_ws_exact(t, k - 1);
    }
}

/// `v` without leading and trailing whitespace (`str::trim`).
pub fn trim_chars(v: &Vec<char>) -> (r: Vec<char>)
    ensures
        r@ == trimmed(v@),
{
    let n = v.len();
    let mut start: usize = 0;
    while start < n && is_whitespace_char(v[start])
        invariant
            n == v.len(),
            start <= n,
            forall|i: int| 0 <= i < start ==> is_whitespace(#[trigger] v@[i]),
        decreases n - start,
    {
        start = start + 1;
    }
    proof {
        lemma_leading_ws_exact(v@, start as int);
    }
    let ghost front = v@.skip(start as int);
    let mut end: usize = n;
    while end > start && is_whitespace_char(v[end - 1])
        invariant
            n == v.len(),
            start <= end <= n,
            front == v@.skip(start as int),
            forall|i: int| end <= i < n ==> is_whitespace(#[trigger] v@[i]),
        decreases end,
    {
        end = end - 1;
    }
    proof {
        assert forall|i: int| front.len() - (n - end) <= i < front.len() implies is_whitespace(
            #[trigger] front[i],
        ) by {
            assert(front[i] == v@[i + start]);
        }
        if n - end < front.len() {
            assert(front[front.len() - (n - end) - 1] == v@[end - 1]);
        }
        lemma_trailing_ws_exact(front, (n - end) as int);
    }
    let mut r: Vec<char> = Vec::new();
    for i in start..end
        invariant
            n == v.len(),
            start <= end <= n,
            r@ == v@.subrange(start as int, i as int),
    {
        r.push(v[i]);
        assert(v@.subrange(start as int, i + 1) == v@.subrange(start as int, i as int).push(
            v@[i as int],
        ));
    }
    assert(r@ =~= trimmed(v@));
    r
}

/// `s` without one leading `+`, if it has one.
pub open spec fn without_plus(s: Seq<char>) -> Seq<char> {
    if s.len() > 0 && s[0] == '+' {
        s.drop_first()
    } else {
        s
    }
}

/// Whether every character of `s` is an ASCII decimal digit.
pub open spec fn all_digits(s: Seq<char>) -> bool {
    forall|i: int| 0 <= i < s.len() ==> is_digit(#[trigger] s[i])
}

/// What `str::parse::<u64>` returns on `s`: an optional `+` followed by one or more ASCII
/// digits whose value fits in a `u64`; `None` on every other input.
pub open spec fn parse_u64(s: Seq<char>) -> Option<u64> {
    let d = without_plus(s);
    if d.len() > 0 && all_digits(d) && digits_value(d) <= u64::MAX {
        Some(digits_value(d) as u64)
    } else {
        None
    }
}

proof fn lemma_digits_value_take_step(d: Seq<char>, i: int)
    requires
        0 <= i < d.len(),
    ensures
        digits_value(d.take(i + 1)) == digits_value(d.take(i)) * 10 + digit_value(d[i]),
{
    assert(d.take(i + 1).drop_last() =~= d.take(i));
}

proof fn lemma_digits_value_monotone(d: Seq<char>, i: int, j: int)
    requires
        0 <= i <= j <= d.len(),
    ensures
        digits_value(d.take(i)) <= digits_value(d.take(j)),
    decreases j - i,
{
    if i < j {
        lemma_digits_value_monotone(d, i, j - 1);
        lemma_digits_value_take_step(d, j - 1);
        assert(digits_value(d.take(j - 1)) <= digits_value(d.take(j - 1)) * 10) by (nonlinear_arith);
    }
}

/// Parses `v` as `str::parse::<u64>` does.
pub fn parse_u64_chars(v: &Vec<char>) -> (r: Option<u64>)
    ensures
        r == parse_u64(v@),
{
    let n = v.len();
    let start: usize = if n > 0 && v[0] == '+' {
        1
    } else {
        0
    };
    let ghost d = without_plus(v@);
    assert(d =~= v@.skip(start as int));
    if start >= n {
        return None;
    }
    let mut acc: u64 = 0;
    let mut i: usize = start;
    while i < n
        invariant
            n == v.len(),
            start <= i <= n,
            d == v@.skip(start as int),
            d == without_plus(v@),
            d.len() > 0,
            forall|j: int| 0 <= j < i - start ==> is_digit(#[trigger] d[j]),
            acc as nat == digits_value(d.take(i - start)),
        decreases n - i,
    {
        let c = v[i];
        if !('0' <= c && c <= '9') {
            proof {
                assert(d[i - start] == v@[i as int]);
                assert(!all_digits(d));
            }
            return None;
        }
        let dv: u64 = (c as u32 - '0' as u32) as u64;
        proof {
            assert(d[i - start] == c);
            lemma_digits_value_take_step(d, i - start);
        }
        if acc > (u64::MAX - dv) / 10 {
            proof {
                assert(acc * 10 + dv > u64::MAX) by (nonlinear_arith)
                    requires
                        acc > (u64::MAX - dv) / 10,
                        dv < 10,
                ;
                lemma_digits_value_monotone(d, i - start + 1, d.len() as int);
                assert(d.take(d.len() as int) =~= d);
            }
            return None;
        }
        proof {
            assert(acc * 10 + dv <= u64::MAX) by (nonlinear_arith)
                requires
                    acc <= (u64::MAX - dv) / 10,
                    dv < 10,
            ;
        }
        acc = acc * 10 + dv;
        i = i + 1;
    }
    assert(d.take(d.len() as int) =~= d);
    Some(acc)
}

/// `10^k`.
pub open spec fn pow10(k: nat) -> nat
    decreases k,
{
    if k == 0 {
        1
    } else {
        10 * pow10((k - 1) as nat)
    }
}

pub proof fn lemma_pow10_positive(k: nat)
    ensures
        pow10(k) >= 1,
    decreases k,
{
    if k > 0 {
        lemma_pow10_positive((k - 1) as nat);
    }
}

pub proof fn lemma_decimal_digits(n: nat)
    ensures
        all_digits(decimal(n)),
        digits_value(decimal(n)) == n,
        decimal(n).len() >= 1,
        n < pow10(decimal(n).len()),
        decimal(n).len() > 1 ==> pow10((decimal(n).len() - 1) as nat) <= n,
    decreases n,
{
    lemma_digit_char(n % 10);
    assert(pow10(1) == 10) by {
        assert(pow10(0) == 1);
    }
    if n < 10 {
        assert(decimal(n).drop_last() =~= Seq::<char>::empty());
        lemma_digit_char(n);
        assert(digits_value(decimal(n).drop_last()) == 0);
        assert(decimal(n).last() == digit_char(n));
        assert(digits_value(decimal(n)) == digit_value(digit_char(n)));
    } else {
        lemma_decimal_digits(n / 10);
        let d = decimal(n / 10);
        assert(decimal(n).drop_last() =~= d);
        assert(decimal(n).last() == digit_char(n % 10));
        assert(digits_value(decimal(n)) == (n / 10) * 10 + n % 10);
        assert((n / 10) * 10 + n % 10 == n) by (nonlinear_arith);
        assert forall|i: int| 0 <= i < decimal(n).len() implies is_digit(#[trigger] decimal(n)[i]) by {
            if i < d.len() {
                assert(decimal(n)[i] == d[i]);
            }
        }
        let k = d.len();
        assert(pow10(k + 1) == 10 * pow10(k));
        assert(n < pow10(k + 1)) by (nonlinear_arith)
            requires
                n / 10 < pow10(k),
                pow10(k + 1) == 10 * pow10(k),
        ;
        if k > 1 {
            assert(pow10(k) == 10 * pow10((k - 1) as nat));
            assert(pow10(k) <= n) by (nonlinear_arith)
                requires
                    pow10((k - 1) as nat) <= n / 10,
                    pow10(k) == 10 * pow10((k - 1) as nat),
            ;
        }
    }
}

pub proof fn lemma_digit_char(d: nat)
    requires
        d < 10,
    ensures
        is_digit(digit_char(d)),
        digit_value(digit_char(d)) == d,
{
}


/// The decimal representation of a signed number, as `format!("{}", n)` writes it.
pub open spec fn signed_decimal(n: int) -> Seq<char> {
    if n < 0 {
        seq!['-'] + decimal((-n) as nat)
    } else {
        decimal(n as nat)
    }
}

/// Appends the decimal representation of the signed number `n` to `s`.
pub fn push_signed_decimal(s: &mut String, n: i32)
    ensures
        final(s)@ == old(s)@ + signed_decimal(n as int),
{
    let wide = n as i64;
    if wide < 0 {
        let ghost start = s@;
        push_char(s, '-');
        push_decimal(s, (-wide) as u64);
        assert(s@ =~= start + signed_decimal(n as int));
    } else {
        push_decimal(s, wide as u64);
    }
}

} // verus!
