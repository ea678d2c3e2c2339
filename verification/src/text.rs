use vstd::prelude::*;

verus! {

// ---------------------------------------------------------------------------
// Building strings
// ---------------------------------------------------------------------------

/// Appends one character to `s` (`String::push`).
#[verifier::external_body]
pub(crate) fn push_char(s: &mut String, c: char)
    ensures
        final(s)@ == old(s)@.push(c),
{
    s.push(c);
}

/// The characters of `s`, in order.
pub fn chars_of(s: &str) -> (v: Vec<char>)
    ensures
        v@ == s@,
{
    let mut v: Vec<char> = Vec::new();
    for c in it: s.chars()
        invariant
            v@ == it.seq().take(it.index() as int),
            it.seq() == s@,
    {
        v.push(c);
    }
    v
}

/// Appends the characters `v[from..to]` to `out`.
pub fn push_chars(out: &mut String, v: &Vec<char>, from: usize, to: usize)
    requires
        from <= to <= v@.len(),
    ensures
        final(out)@ == old(out)@ + v@.subrange(from as int, to as int),
{
    let mut i = from;
    while i < to
        invariant
            from <= i <= to <= v@.len(),
            out@ == old(out)@ + v@.subrange(from as int, i as int),
        decreases to - i,
    {
        push_char(out, v[i]);
        assert(v@.subrange(from as int, i + 1) == v@.subrange(from as int, i as int).push(v@[i as int]));
        i += 1;
    }
}

/// A string holding the characters `v[from..to]`.
pub fn string_from_chars(v: &Vec<char>, from: usize, to: usize) -> (s: String)
    requires
        from <= to <= v@.len(),
    ensures
        s@ == v@.subrange(from as int, to as int),
{
    let mut s = String::new();
    push_chars(&mut s, v, from, to);
    s
}

/// Appends the text `t` to `out`.
pub fn push_str(out: &mut String, t: &str)
    ensures
        final(out)@ == old(out)@ + t@,
{
    let v = chars_of(t);
    push_chars(out, &v, 0, v.len());
    assert(v@.subrange(0, v@.len() as int) == v@);
}

/// An owned copy of `t`.
pub fn string_of(t: &str) -> (s: String)
    ensures
        s@ == t@,
{
    let mut s = String::new();
    push_str(&mut s, t);
    s
}

// ---------------------------------------------------------------------------
// Decimal numbers
// ---------------------------------------------------------------------------

pub open spec fn digit_char(n: nat) -> char {
    ((n % 10) + 48) as char
}

/// The decimal digits of `n`, most significant first, without leading zeros.
pub open spec fn decimal_digits(n: nat) -> Seq<char>
    decreases n,
{
    if n < 10 {
        seq![digit_char(n)]
    } else {
        decimal_digits(n / 10).push(digit_char(n % 10))
    }
}

pub open spec fn is_ascii_digit(c: char) -> bool {
    '0' <= c && c <= '9'
}

/// The value of a string of decimal digits.
pub open spec fn digits_value(s: Seq<char>) -> nat
    decreases s.len(),
{
    if s.len() == 0 {
        0
    } else {
        digits_value(s.drop_last()) * 10 + ((s.last() as nat) - 48) as nat
    }
}

pub open spec fn all_digits(d: Seq<char>) -> bool {
    forall|i: int| 0 <= i < d.len() ==> is_ascii_digit(#[trigger] d[i])
}

/// `s` is a string of ASCII digits whose value is `n`.
proof fn lemma_digit_step(s: Seq<char>)
    requires
        s.len() > 0,
        all_digits(s),
    ensures
        all_digits(s.drop_last()),
        is_ascii_digit(s.last()),
        digits_value(s) == digits_value(s.drop_last()) * 10 + ((s.last() as nat) - 48) as nat,
        ((s.last() as nat) - 48) < 10,
{
    assert(is_ascii_digit(s[s.len() - 1]));
    assert forall|i: int| 0 <= i < s.drop_last().len() implies is_ascii_digit(#[trigger] s.drop_last()[i]) by {
        assert(is_ascii_digit(s[i]));
    }
}

/// The decimal digits of `n` are ASCII digits whose value is `n`.
pub proof fn lemma_decimal_digits_value(n: nat)
    ensures
        decimal_digits(n).len() > 0,
        all_digits(decimal_digits(n)),
        digits_value(decimal_digits(n)) == n,
    decreases n,
{
    let ds = decimal_digits(n);
    assert((n % 10) % 10 == n % 10);
    assert((((n % 10) + 48) as char) as nat == (n % 10) + 48);
    if n < 10 {
        assert(ds.drop_last() =~= Seq::<char>::empty());
    } else {
        lemma_decimal_digits_value(n / 10);
        assert(ds.drop_last() =~= decimal_digits(n / 10));
        assert forall|i: int| 0 <= i < ds.len() implies is_ascii_digit(#[trigger] ds[i]) by {
            if i < ds.len() - 1 {
                assert(ds[i] == decimal_digits(n / 10)[i]);
            }
        }
    }
    assert(digits_value(ds) == digits_value(ds.drop_last()) * 10 + ((ds.last() as nat) - 48) as nat);
}

/// Leading zeros add nothing to the value of a digit string.
proof fn lemma_leading_zeros(k: nat, s: Seq<char>)
    requires
        all_digits(s),
    ensures
        all_digits(Seq::new(k, |i: int| '0') + s),
        digits_value(Seq::new(k, |i: int| '0') + s) == digits_value(s),
    decreases s.len() + k,
{
    let z = Seq::new(k, |i: int| '0');
    let t = z + s;
    assert forall|i: int| 0 <= i < t.len() implies is_ascii_digit(#[trigger] t[i]) by {
        if i >= k {
            assert(t[i] == s[i - k]);
        }
    }
    if s.len() > 0 {
        lemma_digit_step(s);
        lemma_leading_zeros(k, s.drop_last());
        assert(t.drop_last() =~= z + s.drop_last());
        assert(t.last() == s.last());
    } else if k > 0 {
        assert(t =~= z);
        let z1 = Seq::new((k - 1) as nat, |i: int| '0');
        assert(t.drop_last() =~= z1 + Seq::<char>::empty());
        lemma_leading_zeros((k - 1) as nat, Seq::<char>::empty());
        assert(t.last() == '0');
    } else {
        assert(t =~= Seq::<char>::empty());
    }
}

/// A number below `10^w` written in `w` zero-padded digits: `w` ASCII
/// digits whose value is the number.
pub proof fn lemma_zero_padded_value(n: nat, w: nat)
    requires
        w >= 1,
        n < pow10(w),
    ensures
        zero_padded(n, w).len() == w,
        all_digits(zero_padded(n, w)),
        digits_value(zero_padded(n, w)) == n,
{
    lemma_decimal_len(n, w);
    lemma_decimal_digits_value(n);
    let ds = decimal_digits(n);
    if ds.len() < w {
        lemma_leading_zeros((w - ds.len()) as nat, ds);
    }
}

/// Two digit strings of one length with the same value are equal.
pub proof fn lemma_digits_value_injective(x: Seq<char>, y: Seq<char>)
    requires
        x.len() == y.len(),
        all_digits(x),
        all_digits(y),
        digits_value(x) == digits_value(y),
    ensures
        x == y,
    decreases x.len(),
{
    if x.len() > 0 {
        lemma_digit_step(x);
        lemma_digit_step(y);
        let a = digits_value(x.drop_last());
        let b = digits_value(y.drop_last());
        let c = ((x.last() as nat) - 48) as nat;
        let e = ((y.last() as nat) - 48) as nat;
        assert(a == b && c == e) by (nonlinear_arith)
            requires
                a * 10 + c == b * 10 + e,
                c < 10,
                e < 10,
        ;
        lemma_digits_value_injective(x.drop_last(), y.drop_last());
        assert(x.last() == y.last());
        assert(x =~= x.drop_last().push(x.last()));
        assert(y =~= y.drop_last().push(y.last()));
    } else {
        assert(x =~= y);
    }
}

/// `x` comes before `y` in the order of their characters: at the first place
/// where they differ, `x` has the smaller character.
pub open spec fn text_lt(x: Seq<char>, y: Seq<char>) -> bool {
    exists|i: int|
        0 <= i < x.len() && i < y.len() && x.take(i) == y.take(i) && (x[i] as u32) < (#[trigger] y[i] as u32)
}

/// Of two digit strings of one length, the one of smaller value comes first.
pub proof fn lemma_digits_order(x: Seq<char>, y: Seq<char>)
    requires
        x.len() == y.len(),
        all_digits(x),
        all_digits(y),
        digits_value(x) < digits_value(y),
    ensures
        text_lt(x, y),
    decreases x.len(),
{
    if x.len() == 0 {
        assert(false);
    }
    lemma_digit_step(x);
    lemma_digit_step(y);
    let a = digits_value(x.drop_last());
    let b = digits_value(y.drop_last());
    let c = ((x.last() as nat) - 48) as nat;
    let e = ((y.last() as nat) - 48) as nat;
    let n = x.len() - 1;
    if a < b {
        lemma_digits_order(x.drop_last(), y.drop_last());
        let i = choose|i: int|
            0 <= i < x.drop_last().len() && i < y.drop_last().len() && x.drop_last().take(i)
                == y.drop_last().take(i) && (x.drop_last()[i] as u32) < (#[trigger] y.drop_last()[i] as u32);
        assert(x.take(i) =~= x.drop_last().take(i));
        assert(y.take(i) =~= y.drop_last().take(i));
        assert(x[i] == x.drop_last()[i] && y[i] == y.drop_last()[i]);
    } else {
        assert(a == b && c < e) by (nonlinear_arith)
            requires
                a * 10 + c < b * 10 + e,
                a >= b,
                c < 10,
                e < 10,
        ;
        lemma_digits_value_injective(x.drop_last(), y.drop_last());
        assert(x.take(n) =~= x.drop_last());
        assert(y.take(n) =~= y.drop_last());
        assert((x[n] as u32) < (y[n] as u32));
    }
}

/// `decimal_digits(n)`, preceded by zeros up to `width` characters.
pub open spec fn zero_padded(n: nat, width: nat) -> Seq<char> {
    let ds = decimal_digits(n);
    if ds.len() < width {
        Seq::new((width - ds.len()) as nat, |i: int| '0') + ds
    } else {
        ds
    }
}

pub open spec fn pow10(e: nat) -> nat
    decreases e,
{
    if e == 0 {
        1
    } else {
        10 * pow10((e - 1) as nat)
    }
}

proof fn lemma_decimal_len(n: nat, e: nat)
    requires
        e >= 1,
        n < pow10(e),
    ensures
        1 <= decimal_digits(n).len() <= e,
    decreases n,
{
    if n >= 10 {
        assert(e >= 2) by {
            if e == 1 {
                assert(pow10(1) == 10) by {
                    reveal_with_fuel(pow10, 2);
                }
            }
        }
        lemma_decimal_len(n / 10, (e - 1) as nat);
    }
}

proof fn lemma_u64_digits(n: u64)
    ensures
        1 <= decimal_digits(n as nat).len() <= 20,
{
    assert(pow10(20) == 100000000000000000000) by {
        reveal_with_fuel(pow10, 21);
    }
    lemma_decimal_len(n as nat, 20);
}

fn digit_of(n: u64) -> (c: char)
    ensures
        c == digit_char(n as nat),
{
    let b: u8 = (n % 10) as u8 + 48;
    b as char
}

/// Appends `decimal_digits(n)` to `out`.
pub fn push_decimal(out: &mut String, n: u64)
    ensures
        final(out)@ == old(out)@ + decimal_digits(n as nat),
    decreases n,
{
    if n >= 10 {
        push_decimal(out, n / 10);
    }
    push_char(out, digit_of(n % 10));
    assert(digit_char((n % 10) as nat) == digit_char(n as nat));
}

/// The number of decimal digits of `n`.
pub fn decimal_len(n: u64) -> (r: usize)
    ensures
        r == decimal_digits(n as nat).len(),
    decreases n,
{
    if n < 10 {
        1
    } else {
        let k = decimal_len(n / 10);
        proof {
            lemma_u64_digits(n / 10);
        }
        k + 1
    }
}

/// Appends `zero_padded(n, width)` to `out`.
pub fn push_zero_padded(out: &mut String, n: u64, width: usize)
    ensures
        final(out)@ == old(out)@ + zero_padded(n as nat, width as nat),
{
    let len = decimal_len(n);
    let ghost start = out@;
    if len < width {
        let mut k = len;
        while k < width
            invariant
                len <= k <= width,
                out@ == start + Seq::new((k - len) as nat, |i: int| '0'),
            decreases width - k,
        {
            push_char(out, '0');
            assert(Seq::new((k + 1 - len) as nat, |i: int| '0') =~= Seq::new((k - len) as nat, |i: int| '0').push('0'));
            k += 1;
        }
    }
    push_decimal(out, n);
    assert(out@ =~= start + zero_padded(n as nat, width as nat));
}


// ---------------------------------------------------------------------------
// Character classes and sequence predicates
// ---------------------------------------------------------------------------

/// The Unicode `White_Space` property (`char::is_whitespace`).
pub open spec fn is_white_space(c: char) -> bool {
    ('\u{9}' <= c && c <= '\u{d}') || c == ' ' || c == '\u{85}' || c == '\u{a0}' || c == '\u{1680}'
        || ('\u{2000}' <= c && c <= '\u{200a}') || c == '\u{2028}' || c == '\u{2029}' || c
        == '\u{202f}' || c == '\u{205f}' || c == '\u{3000}'
}

/// The Unicode general category `Cc` (`char::is_control`).
pub open spec fn is_control(c: char) -> bool {
    c <= '\u{1f}' || ('\u{7f}' <= c && c <= '\u{9f}')
}

pub fn white_space(c: char) -> (b: bool)
    ensures
        b == is_white_space(c),
{
    ('\u{9}' <= c && c <= '\u{d}') || c == ' ' || c == '\u{85}' || c == '\u{a0}' || c == '\u{1680}'
        || ('\u{2000}' <= c && c <= '\u{200a}') || c == '\u{2028}' || c == '\u{2029}' || c
        == '\u{202f}' || c == '\u{205f}' || c == '\u{3000}'
}

pub fn control(c: char) -> (b: bool)
    ensures
        b == is_control(c),
{
    c <= '\u{1f}' || ('\u{7f}' <= c && c <= '\u{9f}')
}

/// `s` without its leading white space (`str::trim_start`).
pub open spec fn trim_start(s: Seq<char>) -> Seq<char>
    decreases s.len(),
{
    if s.len() > 0 && is_white_space(s[0]) {
        trim_start(s.drop_first())
    } else {
        s
    }
}

/// `s` without its trailing white space (`str::trim_end`).
pub open spec fn trim_end(s: Seq<char>) -> Seq<char>
    decreases s.len(),
{
    if s.len() > 0 && is_white_space(s.last()) {
        trim_end(s.drop_last())
    } else {
        s
    }
}

/// `s` without leading and trailing white space (`str::trim`).
pub open spec fn trim(s: Seq<char>) -> Seq<char> {
    trim_end(trim_start(s))
}

pub open spec fn starts_with(s: Seq<char>, p: Seq<char>) -> bool {
    p.len() <= s.len() && s.take(p.len() as int) == p
}

pub open spec fn ends_with(s: Seq<char>, p: Seq<char>) -> bool {
    p.len() <= s.len() && s.skip(s.len() - p.len()) == p
}

/// `p` occurs in `s` at position `i`.
pub open spec fn occurs_at(s: Seq<char>, p: Seq<char>, i: int) -> bool {
    0 <= i && i + p.len() <= s.len() && s.subrange(i, i + p.len()) == p
}

pub open spec fn contains_seq(s: Seq<char>, p: Seq<char>) -> bool {
    exists|i: int| occurs_at(s, p, i)
}

/// The bounds `(a, b)` of `trim(s)` in `s`.
pub fn trim_bounds(s: &Vec<char>) -> (r: (usize, usize))
    ensures
        r.0 <= r.1 <= s@.len(),
        s@.subrange(r.0 as int, r.1 as int) == trim(s@),
{
    let n = s.len();
    let mut a: usize = 0;
    assert(s@.skip(0) == s@);
    while a < n && white_space(s[a])
        invariant
            a <= n == s@.len(),
            trim_start(s@) == trim_start(s@.skip(a as int)),
        decreases n - a,
    {
        assert(s@.skip(a as int).drop_first() == s@.skip(a + 1));
        a += 1;
    }
    assert(trim_start(s@) == s@.skip(a as int));
    let mut b: usize = n;
    while b > a && white_space(s[b - 1])
        invariant
            a <= b <= n == s@.len(),
            trim(s@) == trim_end(s@.subrange(a as int, b as int)),
        decreases b,
    {
        assert(s@.subrange(a as int, b as int).drop_last() == s@.subrange(a as int, b - 1));
        b -= 1;
    }
    (a, b)
}

/// Whether `p` is a prefix of `s[from..]`.
pub fn has_prefix_at(s: &Vec<char>, from: usize, p: &Vec<char>) -> (b: bool)
    requires
        from <= s@.len(),
    ensures
        b == starts_with(s@.skip(from as int), p@),
{
    let n = s.len();
    let m = p.len();
    if m > n - from {
        return false;
    }
    let mut i: usize = 0;
    while i < m
        invariant
            n == s@.len(),
            m == p@.len(),
            from + m <= n,
            i <= m,
            forall|k: int| 0 <= k < i ==> s@[from + k] == p@[k],
        decreases m - i,
    {
        if s[from + i] != p[i] {
            assert(s@.skip(from as int).take(p@.len() as int)[i as int] != p@[i as int]);
            return false;
        }
        i += 1;
    }
    assert(s@.skip(from as int).take(p@.len() as int) =~= p@);
    true
}

/// Whether `p` is a suffix of `s`.
pub fn has_suffix(s: &Vec<char>, p: &Vec<char>) -> (b: bool)
    ensures
        b == ends_with(s@, p@),
{
    if p.len() > s.len() {
        return false;
    }
    let from = s.len() - p.len();
    let b = has_prefix_at(s, from, p);
    assert(s@.skip(from as int).take(p@.len() as int) =~= s@.skip(from as int));
    b
}

/// The first position at which `p` occurs in `s`, if any (`str::find`).
pub fn find_seq(s: &Vec<char>, p: &Vec<char>) -> (r: Option<usize>)
    ensures
        match r {
            Some(i) => occurs_at(s@, p@, i as int) && forall|j: int| 0 <= j < i ==> !occurs_at(s@, p@, j),
            None => !contains_seq(s@, p@),
        },
{
    if p.len() > s.len() {
        assert forall|j: int| !occurs_at(s@, p@, j) by {}
        return None;
    }
    let last = s.len() - p.len();
    let mut i: usize = 0;
    loop
        invariant
            p@.len() <= s@.len(),
            last == s@.len() - p@.len(),
            i <= last,
            forall|j: int| 0 <= j < i ==> !occurs_at(s@, p@, j),
        ensures
            forall|j: int| 0 <= j <= last ==> !occurs_at(s@, p@, j),
        decreases last - i,
    {
        assert(s@.skip(i as int).take(p@.len() as int) =~= s@.subrange(i as int, i + p@.len()));
        if has_prefix_at(s, i, p) {
            return Some(i);
        }
        if i == last {
            break;
        }
        i += 1;
    }
    assert forall|j: int| !occurs_at(s@, p@, j) by {}
    None
}

/// Whether `p` occurs in `s` (`str::contains`).
pub fn contains(s: &Vec<char>, p: &Vec<char>) -> (b: bool)
    ensures
        b == contains_seq(s@, p@),
{
    match find_seq(s, p) {
        Some(i) => true,
        None => false,
    }
}

/// The Unicode lowercase mapping of a string (what `str::to_lowercase`
/// returns).
pub uninterp spec fn unicode_lowercase(s: Seq<char>) -> Seq<char>;

/// All characters of `s` are ASCII.
pub open spec fn all_ascii(s: Seq<char>) -> bool {
    forall|i: int| 0 <= i < s.len() ==> (#[trigger] s[i] as u32) < 128
}

/// `str::to_lowercase`: the lowercase equivalent of `s` by the Unicode
/// `Lowercase` mapping. The contract names the result; for ASCII text it
/// states what the documentation gives: `A`-`Z` become `a`-`z` and every
/// other ASCII character stays as it is.
#[verifier::external_body]
pub(crate) fn to_lowercase(s: &str) -> (r: String)
    ensures
        r@ == unicode_lowercase(s@),
        all_ascii(s@) ==> r@ == s@.map_values(|c: char| ascii_lower(c)),
{
    s.to_lowercase()
}


/// Whether `a` and `b` hold the same characters.
pub fn chars_eq(a: &Vec<char>, b: &Vec<char>) -> (r: bool)
    ensures
        r == (a@ == b@),
{
    if a.len() != b.len() {
        return false;
    }
    let mut i: usize = 0;
    while i < a.len()
        invariant
            a@.len() == b@.len(),
            i <= a@.len(),
            forall|k: int| 0 <= k < i ==> a@[k] == b@[k],
        decreases a.len() - i,
    {
        if a[i] != b[i] {
            return false;
        }
        i += 1;
    }
    assert(a@ =~= b@);
    true
}

/// Whether the texts `a` and `b` are equal.
pub fn str_eq(a: &str, b: &str) -> (r: bool)
    ensures
        r == (a@ == b@),
{
    chars_eq(&chars_of(a), &chars_of(b))
}

/// ASCII letters to lowercase; every other character unchanged.
pub open spec fn ascii_lower(c: char) -> char {
    if 'A' <= c && c <= 'Z' {
        ((c as u32) + 32) as char
    } else {
        c
    }
}

/// Equality up to ASCII case (`str::eq_ignore_ascii_case`; on UTF-8 text,
/// comparing bytes with ASCII letters folded is comparing characters so).
pub open spec fn eq_ignore_ascii_case(a: Seq<char>, b: Seq<char>) -> bool {
    a.len() == b.len() && forall|i: int| 0 <= i < a.len() ==> ascii_lower(a[i]) == ascii_lower(b[i])
}

fn to_ascii_lower(c: char) -> (r: char)
    ensures
        r == ascii_lower(c),
{
    if 'A' <= c && c <= 'Z' {
        (((c as u32) + 32) as u8) as char
    } else {
        c
    }
}

pub fn str_eq_ignore_ascii_case(a: &str, b: &str) -> (r: bool)
    ensures
        r == eq_ignore_ascii_case(a@, b@),
{
    let va = chars_of(a);
    let vb = chars_of(b);
    if va.len() != vb.len() {
        return false;
    }
    let mut i: usize = 0;
    while i < va.len()
        invariant
            va@ == a@,
            vb@ == b@,
            va@.len() == vb@.len(),
            i <= va@.len(),
            forall|k: int| 0 <= k < i ==> ascii_lower(va@[k]) == ascii_lower(vb@[k]),
        decreases va.len() - i,
    {
        if to_ascii_lower(va[i]) != to_ascii_lower(vb[i]) {
            return false;
        }
        i += 1;
    }
    true
}


/// The characters `v[from..to]`.
pub fn slice_chars(v: &Vec<char>, from: usize, to: usize) -> (r: Vec<char>)
    requires
        from <= to <= v@.len(),
    ensures
        r@ == v@.subrange(from as int, to as int),
{
    let mut r: Vec<char> = Vec::new();
    let mut i = from;
    while i < to
        invariant
            from <= i <= to <= v@.len(),
            r@ == v@.subrange(from as int, i as int),
        decreases to - i,
    {
        r.push(v[i]);
        assert(r@ =~= v@.subrange(from as int, i + 1));
        i += 1;
    }
    r
}

/// Whether `c` occurs in `v[from..to]`.
pub fn has_char(v: &Vec<char>, from: usize, to: usize, c: char) -> (b: bool)
    requires
        from <= to <= v@.len(),
    ensures
        b == v@.subrange(from as int, to as int).contains(c),
{
    let mut i = from;
    while i < to
        invariant
            from <= i <= to <= v@.len(),
            forall|k: int| from <= k < i ==> v@[k] != c,
        decreases to - i,
    {
        if v[i] == c {
            assert(v@.subrange(from as int, to as int)[i - from] == c);
            return true;
        }
        i += 1;
    }
    assert forall|k: int| 0 <= k < to - from implies v@.subrange(from as int, to as int)[k] != c by {
        assert(v@.subrange(from as int, to as int)[k] == v@[from + k]);
    }
    false
}

/// `i` is the first position at which `p` occurs in `s`.
pub open spec fn is_first_occurrence(s: Seq<char>, p: Seq<char>, i: int) -> bool {
    occurs_at(s, p, i) && forall|j: int| 0 <= j < i ==> !occurs_at(s, p, j)
}

/// The first position at which `p` occurs in `s`, if it occurs.
pub open spec fn first_occurrence(s: Seq<char>, p: Seq<char>) -> Option<int> {
    if exists|i: int| is_first_occurrence(s, p, i) {
        Some(choose|i: int| is_first_occurrence(s, p, i))
    } else {
        None
    }
}

pub proof fn lemma_first_occurrence_unique(s: Seq<char>, p: Seq<char>, i: int, j: int)
    requires
        is_first_occurrence(s, p, i),
        is_first_occurrence(s, p, j),
    ensures
        i == j,
{
}

/// `str::find`: the first position at which `p` occurs in `s`.
pub fn find_first(s: &Vec<char>, p: &Vec<char>) -> (r: Option<usize>)
    ensures
        match r {
            Some(i) => first_occurrence(s@, p@) == Some(i as int) && is_first_occurrence(
                s@,
                p@,
                i as int,
            ),
            None => first_occurrence(s@, p@) is None,
        },
{
    let r = find_seq(s, p);
    match r {
        Some(i) => {
            assert(is_first_occurrence(s@, p@, i as int));
            proof {
                let k = choose|k: int| is_first_occurrence(s@, p@, k);
                lemma_first_occurrence_unique(s@, p@, k, i as int);
            }
        },
        None => {},
    }
    r
}

} // verus!
