use vstd::prelude::*;
use vstd::utf8::*;

verus! {

/// True when `b` is an ASCII decimal digit.
pub open spec fn is_digit(b: u8) -> bool {
    48 <= b <= 57
}

/// True when every byte of `s` is an ASCII decimal digit.
pub open spec fn all_digits(s: Seq<u8>) -> bool {
    forall|i: int| 0 <= i < s.len() ==> is_digit(#[trigger] s[i])
}

/// The number that a string of decimal digits denotes.
pub open spec fn digits_value(s: Seq<u8>) -> nat
    decreases s.len(),
{
    if s.len() == 0 {
        0
    } else {
        digits_value(s.drop_last()) * 10 + (s.last() - 48) as nat
    }
}

/// The shortest decimal spelling of `n`, as ASCII bytes.
pub open spec fn decimal(n: nat) -> Seq<u8>
    decreases n,
{
    if n < 10 {
        seq![(48 + n) as u8]
    } else {
        decimal(n / 10).push((48 + n % 10) as u8)
    }
}

/// The digits of an unsigned number, once an optional leading `+` is removed.
pub open spec fn unsigned_digits(s: Seq<u8>) -> Seq<u8> {
    if s.len() > 0 && s[0] == 43 {
        s.drop_first()
    } else {
        s
    }
}

/// What parsing `s` as a `usize` gives: an optional `+`, then one or more
/// decimal digits whose value fits in a `usize`.
pub open spec fn parse_decimal(s: Seq<u8>) -> Option<nat> {
    let d = unsigned_digits(s);
    if d.len() > 0 && all_digits(d) && digits_value(d) <= usize::MAX {
        Some(digits_value(d))
    } else {
        None
    }
}

/// `i` is the position of the first `b` in `s`.
pub open spec fn is_first_index(s: Seq<u8>, b: u8, i: int) -> bool {
    &&& 0 <= i < s.len()
    &&& s[i] == b
    &&& forall|j: int| 0 <= j < i ==> s[j] != b
}

/// The position of the first `b` in `s`, if there is one.
pub open spec fn first_index(s: Seq<u8>, b: u8) -> Option<int> {
    if exists|i: int| is_first_index(s, b, i) {
        Some(choose|i: int| is_first_index(s, b, i))
    } else {
        None
    }
}

/// Two first positions are one.
pub proof fn lemma_first_index_unique(s: Seq<u8>, b: u8, i: int)
    requires
        is_first_index(s, b, i),
    ensures
        first_index(s, b) == Some(i),
{
    let k = choose|k: int| is_first_index(s, b, k);
    assert(is_first_index(s, b, k));
    if k < i {
        assert(s[k] != b);
    } else if i < k {
        assert(s[i] != b);
    }
}

/// A byte sequence lacks `b` exactly when it has no first `b`.
pub proof fn lemma_first_index_none(s: Seq<u8>, b: u8)
    ensures
        first_index(s, b) is None <==> (forall|i: int| 0 <= i < s.len() ==> s[i] != b),
    decreases s.len(),
{
    if s.len() > 0 {
        let t = s.drop_last();
        lemma_first_index_none(t, b);
        if exists|i: int| is_first_index(t, b, i) {
            let k = choose|i: int| is_first_index(t, b, i);
            assert(is_first_index(t, b, k));
            assert forall|j: int| 0 <= j < k implies s[j] != b by {
                assert(t[j] == s[j]);
            }
            assert(is_first_index(s, b, k));
        } else if s.last() == b {
            assert(is_first_index(s, b, s.len() - 1)) by {
                assert forall|j: int| 0 <= j < s.len() - 1 implies s[j] != b by {
                    assert(t[j] == s[j]);
                }
            }
        } else {
            assert forall|i: int| 0 <= i < s.len() implies s[i] != b by {
                if i < s.len() - 1 {
                    assert(t[i] == s[i]);
                }
            }
        }
    }
}

/// Finds the first `b` in `s`.
pub fn find_byte(s: &[u8], b: u8) -> (r: Option<usize>)
    ensures
        match r {
            Some(i) => first_index(s@, b) == Some(i as int) && is_first_index(s@, b, i as int),
            None => first_index(s@, b) is None,
        },
{
    let mut i: usize = 0;
    while i < s.len()
        invariant
            i <= s@.len(),
            forall|j: int| 0 <= j < i ==> s@[j] != b,
        decreases s@.len() - i,
    {
        if s[i] == b {
            proof {
                lemma_first_index_unique(s@, b, i as int);
            }
            return Some(i);
        }
        i = i + 1;
    }
    proof {
        lemma_first_index_none(s@, b);
    }
    None
}

/// The decimal spelling of a number is a non-empty run of digits that
/// denotes the number.
pub proof fn lemma_decimal_digits(n: nat)
    ensures
        decimal(n).len() > 0,
        all_digits(decimal(n)),
        digits_value(decimal(n)) == n,
    decreases n,
{
    if n >= 10 {
        lemma_decimal_digits(n / 10);
        let d = decimal(n);
        assert(d.drop_last() =~= decimal(n / 10));
        assert((48 + n % 10) as u8 == 48 + n % 10);
        assert(n == (n / 10) * 10 + n % 10);
        assert(d.last() == 48 + n % 10);
        assert(digits_value(d) == digits_value(decimal(n / 10)) * 10 + n % 10);
        assert forall|i: int| 0 <= i < d.len() implies is_digit(#[trigger] d[i]) by {
            if i < d.len() - 1 {
                assert(d[i] == decimal(n / 10)[i]);
            }
        }
    } else {
        let d = decimal(n);
        assert((48 + n) as u8 == 48 + n);
        assert(d.drop_last() =~= Seq::<u8>::empty());
        assert(digits_value(d.drop_last()) == 0);
    }
}

/// Reading back the decimal spelling of a `usize` gives the number.
pub proof fn lemma_parse_decimal_of_decimal(n: nat)
    requires
        n <= usize::MAX,
    ensures
        parse_decimal(decimal(n)) == Some(n),
{
    lemma_decimal_digits(n);
    let d = decimal(n);
    assert(is_digit(d[0]));
    assert(unsigned_digits(d) == d);
}

/// The value of a digit string is at least that of each of its prefixes.
pub proof fn lemma_digits_value_prefix(s: Seq<u8>, k: int)
    requires
        all_digits(s),
        0 <= k <= s.len(),
    ensures
        digits_value(s.take(k)) <= digits_value(s),
    decreases s.len(),
{
    if k < s.len() {
        let t = s.drop_last();
        assert forall|i: int| 0 <= i < t.len() implies is_digit(#[trigger] t[i]) by {
            assert(t[i] == s[i]);
        }
        lemma_digits_value_prefix(t, k);
        assert(t.take(k) =~= s.take(k));
        assert(is_digit(s[s.len() - 1]));
    } else {
        assert(s.take(k) =~= s);
    }
}

/// True when `s` is how a number is written in decimal without sign or
/// padding: one or more digits, the first not `0` unless it is the only one.
pub open spec fn is_canonical_decimal(s: Seq<u8>) -> bool {
    &&& s.len() > 0
    &&& all_digits(s)
    &&& (s.len() == 1 || s[0] != 48)
}

/// A positive number's decimal spelling does not start with `0`.
proof fn lemma_decimal_leading_digit(n: nat)
    requires
        n >= 1,
    ensures
        decimal(n)[0] != 48,
    decreases n,
{
    if n >= 10 {
        lemma_decimal_leading_digit(n / 10);
        lemma_decimal_digits(n / 10);
        assert(decimal(n)[0] == decimal(n / 10)[0]);
    } else {
        assert((48 + n) as u8 == 48 + n);
    }
}

/// The spelling `decimal` gives is the plain one: digits only, no leading
/// zero, and it denotes the number.
pub proof fn lemma_decimal_canonical(n: nat)
    ensures
        is_canonical_decimal(decimal(n)),
        digits_value(decimal(n)) == n,
{
    lemma_decimal_digits(n);
    if decimal(n).len() > 1 {
        assert(n >= 10);
        lemma_decimal_leading_digit(n);
    }
}

/// A number has one plain decimal spelling: any digit string without a
/// leading zero is the spelling of the number it denotes.
pub proof fn lemma_canonical_unique(s: Seq<u8>)
    requires
        is_canonical_decimal(s),
    ensures
        s == decimal(digits_value(s)),
    decreases s.len(),
{
    if s.len() == 1 {
        assert(is_digit(s[0]));
        assert(s.drop_last() =~= Seq::<u8>::empty());
        assert(digits_value(s.drop_last()) == 0);
        let v = digits_value(s);
        assert(v == s[0] - 48);
        assert((48 + v) as u8 == s[0]);
        assert(s =~= decimal(v));
    } else {
        let p = s.drop_last();
        assert forall|i: int| 0 <= i < p.len() implies is_digit(#[trigger] p[i]) by {
            assert(p[i] == s[i]);
        }
        assert(p[0] == s[0]);
        lemma_canonical_unique(p);
        lemma_digits_value_prefix(p, 1);
        assert(p.take(1).drop_last() =~= Seq::<u8>::empty());
        assert(digits_value(p.take(1).drop_last()) == 0);
        assert(p.take(1).last() == p[0]);
        assert(is_digit(p[0]));
        assert(digits_value(p.take(1)) == p[0] - 48);
        let vp = digits_value(p);
        let c = s.last();
        assert(is_digit(s[s.len() - 1]));
        let v = digits_value(s);
        assert(v == vp * 10 + (c - 48));
        assert(vp >= 1);
        assert(v >= 10);
        assert(v / 10 == vp);
        assert(v % 10 == c - 48);
        assert((48 + v % 10) as u8 == c);
        assert(s =~= decimal(vp).push(c));
    }
}

/// Appends the decimal spelling of `n` to `out`.
pub fn push_decimal(out: &mut Vec<u8>, n: usize)
    ensures
        final(out)@ == old(out)@ + decimal(n as nat),
    decreases n,
{
    if n < 10 {
        out.push((48 + n) as u8);
        assert(final(out)@ =~= old(out)@ + decimal(n as nat));
    } else {
        push_decimal(out, n / 10);
        out.push((48 + n % 10) as u8);
        assert(final(out)@ =~= old(out)@ + decimal(n as nat));
    }
}

/// Parses `s` as a `usize` the way `str::parse::<usize>` does: an optional
/// `+` followed by decimal digits, refused when the value does not fit.
pub fn parse_usize(s: &[u8]) -> (r: Option<usize>)
    ensures
        match r {
            Some(v) => parse_decimal(s@) == Some(v as nat),
            None => parse_decimal(s@) is None,
        },
{
    let start: usize = if s.len() > 0 && s[0] == 43 {
        1
    } else {
        0
    };
    let ghost d = unsigned_digits(s@);
    assert(d =~= s@.subrange(start as int, s@.len() as int));
    if start == s.len() {
        return None;
    }
    let mut v: usize = 0;
    let mut i: usize = start;
    while i < s.len()
        invariant
            start <= i <= s@.len(),
            d == s@.subrange(start as int, s@.len() as int),
            d == unsigned_digits(s@),
            all_digits(s@.subrange(start as int, i as int)),
            v as nat == digits_value(s@.subrange(start as int, i as int)),
        decreases s@.len() - i,
    {
        let c = s[i];
        let ghost prefix = s@.subrange(start as int, i as int);
        let ghost next = s@.subrange(start as int, i + 1);
        assert(next.drop_last() =~= prefix);
        assert(next.last() == c);
        if c < 48 || c > 57 {
            assert(d[i - start] == c);
            assert(!is_digit(d[i - start]));
            return None;
        }
        assert forall|k: int| 0 <= k < next.len() implies is_digit(#[trigger] next[k]) by {
            if k < next.len() - 1 {
                assert(next[k] == prefix[k]);
            }
        }
        let digit = (c - 48) as usize;
        assert(digits_value(next) == v * 10 + digit);
        let scaled = match v.checked_mul(10) {
            Some(x) => x,
            None => {
                proof {
                    assert(d.take(i + 1 - start) =~= next);
                    if all_digits(d) {
                        lemma_digits_value_prefix(d, i + 1 - start);
                    }
                }
                return None;
            },
        };
        let sum = match scaled.checked_add(digit) {
            Some(x) => x,
            None => {
                proof {
                    assert(d.take(i + 1 - start) =~= next);
                    if all_digits(d) {
                        lemma_digits_value_prefix(d, i + 1 - start);
                    }
                }
                return None;
            },
        };
        v = sum;
        i = i + 1;
    }
    Some(v)
}

/// Whether `bytes` is valid UTF-8, by `std::str::from_utf8`.
///
/// Trusted: the contract claims that `from_utf8` accepts exactly the byte
/// sequences that vstd's `valid_utf8` describes (the Unicode definition of
/// well-formed UTF-8, with no overlong forms and no surrogates).
#[verifier::external_body]
pub(crate) fn utf8_is_valid(bytes: &[u8]) -> (r: bool)
    ensures
        r == valid_utf8(bytes@),
{
    std::str::from_utf8(bytes).is_ok()
}

/// A byte sequence of ASCII bytes is valid UTF-8.
pub proof fn lemma_ascii_valid_utf8(s: Seq<u8>)
    requires
        forall|i: int| 0 <= i < s.len() ==> s[i] < 128,
    ensures
        valid_utf8(s),
{
    assert(s.subrange(0, 0) =~= Seq::<u8>::empty());
    assert(valid_utf8(Seq::<u8>::empty()));
    assert forall|i: int| 0 <= 0 <= i < s.len() <= s.len() implies #[trigger] is_leading_byte_width_1(s[i]) by {
    }
    partial_valid_utf8_extend_ascii_block(s, 0, s.len() as int);
    assert(s.subrange(0, s.len() as int) =~= s);
}

} // verus!
