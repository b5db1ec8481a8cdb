use vstd::prelude::*;
use vstd::std_specs::iter::IteratorSpec;

verus! {

broadcast use vstd::string::group_string_axioms;

/// Is `c` a decimal digit?
pub open spec fn is_digit_char(c: char) -> bool {
    48 <= c as u32 <= 57
}

/// The numeric value of a decimal digit character.
pub open spec fn digit_val(c: char) -> nat {
    (c as u32 - 48) as nat
}

/// The decimal digit character for a value below ten.
pub open spec fn digit_char(d: nat) -> char {
    ((48 + d) as u8) as char
}

/// The decimal representation of a natural number, most significant digit first.
pub open spec fn dec_digits(n: nat) -> Seq<char>
    decreases n,
{
    if n < 10 {
        seq![digit_char(n)]
    } else {
        dec_digits(n / 10).push(digit_char(n % 10))
    }
}

/// Relies on String::push: appends the given character to the end of the string.
#[verifier::external_body]
pub(crate) fn push_char(s: &mut String, c: char)
    ensures
        final(s)@ == old(s)@.push(c),
{
    s.push(c);
}

proof fn lemma_digit_char_val(d: nat)
    requires
        d < 10,
    ensures
        is_digit_char(digit_char(d)),
        digit_val(digit_char(d)) == d,
        digit_char(d) as u32 == 48 + d,
{
    assert(digit_char(d) as u32 == 48 + d);
}

/// Every character of a decimal representation is a digit.
pub proof fn lemma_dec_digits_are_digits(n: nat)
    ensures
        dec_digits(n).len() >= 1,
        forall|i: int| 0 <= i < dec_digits(n).len() ==> is_digit_char(#[trigger] dec_digits(n)[i]),
    decreases n,
{
    if n < 10 {
        lemma_digit_char_val(n);
    } else {
        lemma_dec_digits_are_digits(n / 10);
        lemma_digit_char_val(n % 10);
    }
}

fn digit_to_char(d: u32) -> (c: char)
    requires
        d < 10,
    ensures
        c == digit_char(d as nat),
{
    let c: char = ((48 + d) as u8) as char;
    proof {
        lemma_digit_char_val(d as nat);
    }
    c
}

/// Writes the decimal representation of `n` at the end of `out`.
pub fn append_u32(out: &mut String, n: u32)
    ensures
        final(out)@ == old(out)@ + dec_digits(n as nat),
    decreases n,
{
    if n < 10 {
        push_char(out, digit_to_char(n));
        assert(final(out)@ =~= old(out)@ + dec_digits(n as nat));
    } else {
        append_u32(out, n / 10);
        push_char(out, digit_to_char(n % 10));
        assert(final(out)@ =~= old(out)@ + dec_digits(n as nat));
    }
}

/// The two-character, zero-padded decimal form of a value below one hundred.
pub open spec fn pad2(n: nat) -> Seq<char> {
    seq![digit_char(n / 10), digit_char(n % 10)]
}

/// Writes the two-digit, zero-padded decimal form of `n` at the end of `out`.
pub fn append_pad2(out: &mut String, n: u16)
    requires
        n < 100,
    ensures
        final(out)@ == old(out)@ + pad2(n as nat),
{
    push_char(out, digit_to_char((n / 10) as u32));
    push_char(out, digit_to_char((n % 10) as u32));
    assert(final(out)@ =~= old(out)@ + pad2(n as nat));
}

/// The characters of `s`, as a vector.
pub fn str_to_chars(s: &str) -> (v: Vec<char>)
    ensures
        v@ == s@,
{
    let mut v: Vec<char> = Vec::new();
    let mut it = s.chars();
    loop
        invariant
            it.obeys_prophetic_iter_laws(),
            it.decrease() is Some,
            v@ + it.remaining() == s@,
        ensures
            v@ == s@,
        decreases it.decrease()->0,
    {
        match it.next() {
            Some(c) => {
                v.push(c);
                assert(v@ + it.remaining() =~= s@);
            },
            None => {
                assert(v@ =~= s@);
                break ;
            },
        }
    }
    v
}

/// The substring `v[from..to]`, as a freshly built string.
pub fn chars_to_string(v: &Vec<char>, from: usize, to: usize) -> (r: String)
    requires
        from <= to <= v@.len(),
    ensures
        r@ == v@.subrange(from as int, to as int),
{
    let mut r = String::new();
    let mut i: usize = from;
    while i < to
        invariant
            from <= i <= to <= v@.len(),
            r@ == v@.subrange(from as int, i as int),
        decreases to - i,
    {
        push_char(&mut r, v[i]);
        assert(r@ =~= v@.subrange(from as int, i + 1 as int));
        i = i + 1;
    }
    r
}

/// Character-for-character equality of two strings.
pub fn str_eq(a: &str, b: &str) -> (r: bool)
    ensures
        r == (a@ == b@),
{
    let va = str_to_chars(a);
    let vb = str_to_chars(b);
    chars_eq(&va, &vb)
}

/// Character-for-character equality of two character vectors.
pub fn chars_eq(a: &Vec<char>, b: &Vec<char>) -> (r: bool)
    ensures
        r == (a@ == b@),
{
    if a.len() != b.len() {
        return false;
    }
    let n = a.len();
    let mut i: usize = 0;
    while i < n
        invariant
            0 <= i <= n,
            n == a@.len() == b@.len(),
            forall|j: int| 0 <= j < i ==> a@[j] == b@[j],
        decreases n - i,
    {
        if a[i] != b[i] {
            return false;
        }
        i = i + 1;
    }
    proof {
        assert(a@ =~= b@);
    }
    true
}

/// Does `h` contain `n` as a contiguous run of characters?
pub open spec fn spec_contains(h: Seq<char>, n: Seq<char>) -> bool {
    exists|i: int| 0 <= i <= h.len() - n.len() && #[trigger] h.subrange(i, i + n.len()) == n
}

/// Substring search over characters.
pub fn contains_chars(h: &Vec<char>, n: &Vec<char>) -> (r: bool)
    ensures
        r == spec_contains(h@, n@),
{
    let hl = h.len();
    let nl = n.len();
    if nl > hl {
        assert(!spec_contains(h@, n@));
        return false;
    }
    if nl == 0 {
        assert(spec_contains(h@, n@)) by {
            assert(h@.subrange(0, 0 + n@.len() as int) =~= n@);
        }
        return true;
    }
    let last = hl - nl;
    let mut i: usize = 0;
    while i <= last
        invariant
            0 <= i <= last + 1,
            hl == h@.len(),
            nl == n@.len(),
            last == hl - nl,
            1 <= nl <= hl,
            forall|k: int| 0 <= k < i ==> #[trigger] h@.subrange(k, k + n@.len()) != n@,
        decreases last + 1 - i,
    {
        if match_at(h, n, i) {
            assert(spec_contains(h@, n@));
            return true;
        }
        i = i + 1;
    }
    false
}

fn match_at(h: &Vec<char>, n: &Vec<char>, at: usize) -> (r: bool)
    requires
        at + n@.len() <= h@.len(),
    ensures
        r == (h@.subrange(at as int, at + n@.len()) == n@),
{
    let hl = h.len();
    let nl = n.len();
    let mut j: usize = 0;
    while j < nl
        invariant
            0 <= j <= nl,
            hl == h@.len(),
            nl == n@.len(),
            at + nl <= hl,
            forall|k: int| 0 <= k < j ==> h@[at + k] == n@[k],
        decreases nl - j,
    {
        if h[at + j] != n[j] {
            assert(h@.subrange(at as int, at + n@.len())[j as int] == h@[at + j]);
            return false;
        }
        j = j + 1;
    }
    proof {
        assert(h@.subrange(at as int, at + n@.len()) =~= n@);
    }
    true
}

/// Does the string `h` contain the string `n`?
pub fn contains_str(h: &str, n: &str) -> (r: bool)
    ensures
        r == spec_contains(h@, n@),
{
    let vh = str_to_chars(h);
    let vn = str_to_chars(n);
    contains_chars(&vh, &vn)
}

/// Why a piece of text failed to parse as an integer.
#[derive(Clone, Copy, Debug, PartialEq, Eq, Structural)]
pub enum IntParseError {
    /// The text was empty.
    Empty,
    /// A character was not a decimal digit, or a sign stood alone.
    InvalidDigit,
    /// The value exceeds the largest representable value.
    PosOverflow,
    /// The value falls below the smallest representable value.
    NegOverflow,
}

/// Are all characters of `s` decimal digits?
pub open spec fn all_digits(s: Seq<char>) -> bool {
    forall|i: int| 0 <= i < s.len() ==> is_digit_char(#[trigger] s[i])
}

/// One digit-consuming step at a time, the signed value accumulated so far,
/// with the first out-of-range step reported as an overflow.
pub open spec fn spec_parse_i32_digits(acc: int, neg: bool, ds: Seq<char>) -> Result<
    i32,
    IntParseError,
> decreases ds.len() {
    if ds.len() == 0 {
        Ok(acc as i32)
    } else if !is_digit_char(ds[0]) {
        Err(IntParseError::InvalidDigit)
    } else {
        let next = if neg {
            acc * 10 - digit_val(ds[0])
        } else {
            acc * 10 + digit_val(ds[0])
        };
        if next < i32::MIN || next > i32::MAX {
            Err(
                if neg {
                    IntParseError::NegOverflow
                } else {
                    IntParseError::PosOverflow
                },
            )
        } else {
            spec_parse_i32_digits(next, neg, ds.drop_first())
        }
    }
}

/// What parsing a piece of text as an `i32` yields: an optional sign
/// followed by at least one decimal digit, scanned left to right.
pub open spec fn spec_parse_i32(s: Seq<char>) -> Result<i32, IntParseError> {
    if s.len() == 0 {
        Err(IntParseError::Empty)
    } else if s[0] == '+' {
        if s.len() == 1 {
            Err(IntParseError::InvalidDigit)
        } else {
            spec_parse_i32_digits(0, false, s.drop_first())
        }
    } else if s[0] == '-' {
        if s.len() == 1 {
            Err(IntParseError::InvalidDigit)
        } else {
            spec_parse_i32_digits(0, true, s.drop_first())
        }
    } else {
        spec_parse_i32_digits(0, false, s)
    }
}

/// Parses `v[from..to]` as an `i32`.
pub fn parse_i32_range(v: &Vec<char>, from: usize, to: usize) -> (r: Result<i32, IntParseError>)
    requires
        from <= to <= v@.len(),
    ensures
        r == spec_parse_i32(v@.subrange(from as int, to as int)),
{
    let ghost s = v@.subrange(from as int, to as int);
    if from == to {
        return Err(IntParseError::Empty);
    }
    let c0 = v[from];
    let (neg, start): (bool, usize) = if c0 == '+' {
        (false, from + 1)
    } else if c0 == '-' {
        (true, from + 1)
    } else {
        (false, from)
    };
    if start == to {
        proof {
            assert(s[0] == v@[from as int]);
        }
        return Err(IntParseError::InvalidDigit);
    }
    let ghost ds = v@.subrange(start as int, to as int);
    proof {
        assert(s[0] == v@[from as int]);
        if start != from {
            assert(ds =~= s.drop_first());
        }
        assert(spec_parse_i32(s) == spec_parse_i32_digits(0, neg, ds));
    }
    let mut acc: i32 = 0;
    let mut i: usize = start;
    while i < to
        invariant
            start <= i <= to <= v@.len(),
            s == v@.subrange(from as int, to as int),
            ds == v@.subrange(start as int, to as int),
            neg ==> acc <= 0,
            !neg ==> acc >= 0,
            spec_parse_i32(s) == spec_parse_i32_digits(0, neg, ds),
            spec_parse_i32_digits(acc as int, neg, v@.subrange(i as int, to as int))
                == spec_parse_i32_digits(0, neg, ds),
        decreases to - i,
    {
        let ghost rest = v@.subrange(i as int, to as int);
        proof {
            assert(rest[0] == v@[i as int]);
            assert(rest.drop_first() =~= v@.subrange(i + 1 as int, to as int));
        }
        let cu = v[i] as u32;
        if cu < 48 || cu > 57 {
            return Err(IntParseError::InvalidDigit);
        }
        let d = (cu - 48) as i64;
        let next: i64 = if neg {
            acc as i64 * 10 - d
        } else {
            acc as i64 * 10 + d
        };
        if next > i32::MAX as i64 {
            return Err(IntParseError::PosOverflow);
        }
        if next < i32::MIN as i64 {
            return Err(IntParseError::NegOverflow);
        }
        acc = next as i32;
        i = i + 1;
    }
    proof {
        assert(v@.subrange(to as int, to as int) =~= Seq::<char>::empty());
    }
    Ok(acc)
}

/// The decimal value of a run of digit characters, most significant first.
pub open spec fn digits_value(s: Seq<char>) -> nat
    decreases s.len(),
{
    if s.len() == 0 {
        0
    } else {
        digits_value(s.drop_last()) * 10 + digit_val(s.last())
    }
}

/// What parsing a piece of text as a `u16` yields: an optional plus sign
/// followed by at least one decimal digit, the value at most `u16::MAX`.
pub open spec fn spec_parse_u16(s: Seq<char>) -> Option<u16> {
    if s.len() == 0 {
        None
    } else {
        let ds = if s[0] == '+' {
            s.drop_first()
        } else {
            s
        };
        if ds.len() == 0 || !all_digits(ds) || digits_value(ds) > u16::MAX {
            None
        } else {
            Some(digits_value(ds) as u16)
        }
    }
}

proof fn lemma_digits_value_step(s: Seq<char>, i: int)
    requires
        0 <= i < s.len(),
    ensures
        digits_value(s.take(i + 1)) == digits_value(s.take(i)) * 10 + digit_val(s[i]),
{
    assert(s.take(i + 1).drop_last() =~= s.take(i));
    assert(s.take(i + 1).last() == s[i]);
}

proof fn lemma_digits_value_prefix(s: Seq<char>, i: int)
    requires
        0 <= i <= s.len(),
    ensures
        digits_value(s) >= digits_value(s.take(i)),
    decreases s.len() - i,
{
    if i == s.len() {
        assert(s.take(i) =~= s);
    } else {
        lemma_digits_value_step(s, i);
        lemma_digits_value_prefix(s, i + 1);
        assert(digits_value(s.take(i)) * 10 >= digits_value(s.take(i)));
    }
}

/// Parses a whole string as a `u16`.
pub fn parse_u16(s: &str) -> (r: Option<u16>)
    ensures
        r == spec_parse_u16(s@),
{
    let v = str_to_chars(s);
    let n = v.len();
    if n == 0 {
        return None;
    }
    let start: usize = if v[0] == '+' {
        1
    } else {
        0
    };
    let ghost ds = if s@[0] == '+' {
        s@.drop_first()
    } else {
        s@
    };
    proof {
        assert(ds =~= v@.subrange(start as int, n as int));
    }
    if start == n {
        return None;
    }
    let mut acc: u32 = 0;
    let mut i: usize = start;
    while i < n
        invariant
            start <= i <= n == v@.len(),
            v@ == s@,
            s@.len() > 0,
            start == 1 <==> s@[0] == '+',
            start <= 1,
            start < n,
            ds == (if s@[0] == '+' {
                s@.drop_first()
            } else {
                s@
            }),
            ds == v@.subrange(start as int, n as int),
            acc <= u16::MAX,
            acc == digits_value(ds.take(i - start)),
            all_digits(ds.take(i - start)),
        decreases n - i,
    {
        proof {
            assert(ds[i - start] == v@[i as int]);
        }
        let cu = v[i] as u32;
        if cu < 48 || cu > 57 {
            assert(!is_digit_char(ds[i - start]));
            return None;
        }
        proof {
            lemma_digits_value_step(ds, i - start);
            assert(ds.take(i + 1 - start).drop_last() =~= ds.take(i - start));
        }
        let next: u32 = acc * 10 + (cu - 48);
        if next > u16::MAX as u32 {
            proof {
                lemma_digits_value_prefix(ds, i + 1 - start);
            }
            return None;
        }
        acc = next;
        i = i + 1;
    }
    proof {
        assert(ds.take(n - start) =~= ds);
    }
    Some(acc as u16)
}

/// What parsing a piece of text as a `u8` yields: the `u16` reading with the
/// tighter bound `u8::MAX`.
pub open spec fn spec_parse_u8(s: Seq<char>) -> Option<u8> {
    match spec_parse_u16(s) {
        Some(x) => if x <= u8::MAX as u16 {
            Some(x as u8)
        } else {
            None
        },
        None => None,
    }
}

/// Parses a whole string as a `u8`.
pub fn parse_u8(s: &str) -> (r: Option<u8>)
    ensures
        r == spec_parse_u8(s@),
{
    match parse_u16(s) {
        Some(x) => if x <= u8::MAX as u16 {
            Some(x as u8)
        } else {
            None
        },
        None => None,
    }
}

/// Parses a whole string as an `i32`.
pub fn parse_i32_str(s: &str) -> (r: Result<i32, IntParseError>)
    ensures
        r == spec_parse_i32(s@),
{
    let v = str_to_chars(s);
    let n = v.len();
    proof {
        assert(v@.subrange(0, n as int) =~= s@);
    }
    parse_i32_range(&v, 0, n)
}

/// The decimal representation of an `i32`, a minus sign ahead of a negative value.
pub open spec fn spec_i32_chars(v: int) -> Seq<char> {
    if v < 0 {
        seq!['-'] + dec_digits((-v) as nat)
    } else {
        dec_digits(v as nat)
    }
}

/// Writes the decimal representation of `v` at the end of `out`.
pub fn append_i32(out: &mut String, v: i32)
    ensures
        final(out)@ == old(out)@ + spec_i32_chars(v as int),
{
    if v >= 0 {
        append_u32(out, v as u32);
    } else {
        push_char(out, '-');
        let m: u32 = (-(v as i64)) as u32;
        append_u32(out, m);
        assert(final(out)@ =~= old(out)@ + spec_i32_chars(v as int));
    }
}

/// The signed value that consuming `s` digit by digit adds to `acc`.
pub open spec fn spec_combine(acc: int, neg: bool, s: Seq<char>) -> int
    decreases s.len(),
{
    if s.len() == 0 {
        acc
    } else {
        let next = if neg {
            acc * 10 - digit_val(s[0])
        } else {
            acc * 10 + digit_val(s[0])
        };
        spec_combine(next, neg, s.drop_first())
    }
}

proof fn lemma_combine_mono(acc: int, neg: bool, s: Seq<char>)
    requires
        neg ==> acc <= 0,
        !neg ==> acc >= 0,
    ensures
        neg ==> spec_combine(acc, neg, s) <= acc,
        !neg ==> spec_combine(acc, neg, s) >= acc,
    decreases s.len(),
{
    if s.len() > 0 {
        let next = if neg {
            acc * 10 - digit_val(s[0])
        } else {
            acc * 10 + digit_val(s[0])
        };
        lemma_combine_mono(next, neg, s.drop_first());
    }
}

proof fn lemma_parse_digits_ok(acc: int, neg: bool, s: Seq<char>)
    requires
        all_digits(s),
        i32::MIN <= acc <= i32::MAX,
        neg ==> acc <= 0,
        !neg ==> acc >= 0,
        i32::MIN <= spec_combine(acc, neg, s) <= i32::MAX,
    ensures
        spec_parse_i32_digits(acc, neg, s) == Ok::<i32, IntParseError>(
            spec_combine(acc, neg, s) as i32,
        ),
    decreases s.len(),
{
    if s.len() > 0 {
        assert(is_digit_char(s[0]));
        let next = if neg {
            acc * 10 - digit_val(s[0])
        } else {
            acc * 10 + digit_val(s[0])
        };
        lemma_combine_mono(next, neg, s.drop_first());
        assert(forall|i: int|
            0 <= i < s.drop_first().len() ==> is_digit_char(#[trigger] s.drop_first()[i]));
        lemma_parse_digits_ok(next, neg, s.drop_first());
    }
}

proof fn lemma_combine_push(acc: int, neg: bool, s: Seq<char>, c: char)
    ensures
        spec_combine(acc, neg, s.push(c)) == if neg {
            spec_combine(acc, neg, s) * 10 - digit_val(c)
        } else {
            spec_combine(acc, neg, s) * 10 + digit_val(c)
        },
    decreases s.len(),
{
    let next_c = if neg {
        acc * 10 - digit_val(c)
    } else {
        acc * 10 + digit_val(c)
    };
    if s.len() == 0 {
        assert(s.push(c)[0] == c);
        assert(s.push(c).drop_first() =~= Seq::<char>::empty());
        assert(spec_combine(next_c, neg, Seq::<char>::empty()) == next_c);
        assert(spec_combine(acc, neg, s.push(c)) == next_c);
    } else {
        assert(s.push(c)[0] == s[0]);
        assert(s.push(c).drop_first() =~= s.drop_first().push(c));
        let next = if neg {
            acc * 10 - digit_val(s[0])
        } else {
            acc * 10 + digit_val(s[0])
        };
        lemma_combine_push(next, neg, s.drop_first(), c);
        assert(spec_combine(acc, neg, s.push(c)) == spec_combine(next, neg, s.drop_first().push(c)));
        assert(spec_combine(acc, neg, s) == spec_combine(next, neg, s.drop_first()));
    }
}

proof fn lemma_combine_dec_digits(neg: bool, m: nat)
    ensures
        spec_combine(0, neg, dec_digits(m)) == if neg {
            -(m as int)
        } else {
            m as int
        },
    decreases m,
{
    lemma_digit_char_val(m % 10);
    if m < 10 {
        lemma_digit_char_val(m);
        let one = dec_digits(m);
        assert(one == seq![digit_char(m)]);
        assert(one[0] == digit_char(m));
        assert(one.drop_first() =~= Seq::<char>::empty());
        let next = if neg {
            0 - m as int
        } else {
            0 + m as int
        };
        assert(spec_combine(next, neg, Seq::<char>::empty()) == next);
        assert(spec_combine(0, neg, one) == next);
    } else {
        lemma_combine_dec_digits(neg, m / 10);
        lemma_combine_push(0, neg, dec_digits(m / 10), digit_char(m % 10));
        vstd::arithmetic::div_mod::lemma_fundamental_div_mod(m as int, 10);
    }
}

/// Parsing the decimal representation of an `i32` yields the value back.
pub proof fn lemma_i32_chars_parse(v: i32)
    ensures
        spec_parse_i32(spec_i32_chars(v as int)) == Ok::<i32, IntParseError>(v),
{
    let s = spec_i32_chars(v as int);
    if v >= 0 {
        let m = v as nat;
        lemma_dec_digits_are_digits(m);
        assert(s == dec_digits(m));
        assert(is_digit_char(s[0]));
        assert(s[0] != '+' && s[0] != '-');
        lemma_combine_dec_digits(false, m);
        lemma_parse_digits_ok(0, false, s);
    } else {
        let m = (-(v as int)) as nat;
        lemma_dec_digits_are_digits(m);
        assert(s[0] == '-');
        assert(s.drop_first() =~= dec_digits(m));
        lemma_combine_dec_digits(true, m);
        lemma_parse_digits_ok(0, true, dec_digits(m));
    }
}

} // verus!
