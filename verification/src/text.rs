//! Character-level utilities shared by all converters: whitespace trimming,
//! ASCII case folding, digit handling, and bridges between `String` and
//! `Vec<char>`.

use vstd::prelude::*;

verus! {

/// A character with the Unicode `White_Space` property; this is the set that
/// trimming removes from the ends of a text block.
pub open spec fn is_space(c: char) -> bool {
    let u = c as u32;
    (9 <= u && u <= 13) || u == 32 || u == 0x85 || u == 0xA0 || u == 0x1680 || (0x2000 <= u
        && u <= 0x200A) || u == 0x2028 || u == 0x2029 || u == 0x202F || u == 0x205F || u == 0x3000
}

pub fn is_space_char(c: char) -> (r: bool)
    ensures
        r == is_space(c),
{
    let u = c as u32;
    (9 <= u && u <= 13) || u == 32 || u == 0x85 || u == 0xA0 || u == 0x1680 || (0x2000 <= u
        && u <= 0x200A) || u == 0x2028 || u == 0x2029 || u == 0x202F || u == 0x205F || u == 0x3000
}

/// The text with leading whitespace removed.
pub open spec fn spec_trim_start(s: Seq<char>) -> Seq<char>
    decreases s.len(),
{
    if s.len() > 0 && is_space(s[0]) {
        spec_trim_start(s.drop_first())
    } else {
        s
    }
}

/// The text with trailing whitespace removed.
pub open spec fn spec_trim_end(s: Seq<char>) -> Seq<char>
    decreases s.len(),
{
    if s.len() > 0 && is_space(s.last()) {
        spec_trim_end(s.drop_last())
    } else {
        s
    }
}

/// The text with whitespace removed from both ends.
pub open spec fn spec_trim(s: Seq<char>) -> Seq<char> {
    spec_trim_end(spec_trim_start(s))
}

proof fn lemma_trim_start_range(s: Seq<char>, i: int)
    requires
        0 <= i <= s.len(),
        forall|j: int| 0 <= j < i ==> is_space(s[j]),
        i < s.len() ==> !is_space(s[i]),
    ensures
        spec_trim_start(s) == s.subrange(i, s.len() as int),
    decreases i,
{
    if i == 0 {
        if s.len() > 0 {
            assert(!is_space(s[0]));
        }
        assert(s.subrange(0, s.len() as int) =~= s);
    } else {
        assert(is_space(s[0]));
        lemma_trim_start_range(s.drop_first(), i - 1);
        assert(s.drop_first().subrange(i - 1, s.drop_first().len() as int) =~= s.subrange(
            i,
            s.len() as int,
        ));
    }
}

proof fn lemma_trim_end_range(s: Seq<char>, i: int)
    requires
        0 <= i <= s.len(),
        forall|j: int| i <= j < s.len() ==> is_space(s[j]),
        i > 0 ==> !is_space(s[i - 1]),
    ensures
        spec_trim_end(s) == s.subrange(0, i),
    decreases s.len() - i,
{
    if i == s.len() {
        if s.len() > 0 {
            assert(!is_space(s.last()));
        }
        assert(s.subrange(0, s.len() as int) =~= s);
    } else {
        assert(is_space(s.last()));
        lemma_trim_end_range(s.drop_last(), i);
        assert(s.drop_last().subrange(0, i) =~= s.subrange(0, i));
    }
}

/// Removes whitespace from both ends of a character sequence.
pub fn trim_chars(v: &Vec<char>) -> (r: Vec<char>)
    ensures
        r@ == spec_trim(v@),
{
    let n = v.len();
    let mut start: usize = 0;
    while start < n && is_space_char(v[start])
        invariant
            0 <= start <= n == v@.len(),
            forall|j: int| 0 <= j < start ==> is_space(v@[j]),
        decreases n - start,
    {
        start = start + 1;
    }
    proof {
        lemma_trim_start_range(v@, start as int);
    }
    let mut end: usize = n;
    while end > start && is_space_char(v[end - 1])
        invariant
            start <= end <= n == v@.len(),
            forall|j: int| end <= j < n ==> is_space(v@[j]),
        decreases end,
    {
        end = end - 1;
    }
    proof {
        let st = v@.subrange(start as int, n as int);
        lemma_trim_end_range(st, end - start);
        assert(st.subrange(0, end - start) =~= v@.subrange(start as int, end as int));
    }
    let mut r: Vec<char> = Vec::new();
    let mut i: usize = start;
    while i < end
        invariant
            start <= i <= end <= v@.len(),
            r@ == v@.subrange(start as int, i as int),
        decreases end - i,
    {
        r.push(v[i]);
        proof {
            assert(r@ =~= v@.subrange(start as int, i + 1));
        }
        i = i + 1;
    }
    r
}

/// Lower-cases one character, folding only the ASCII letters.
pub open spec fn lower_char(c: char) -> char {
    if 'A' <= c && c <= 'Z' {
        (((c as u8) + 32) as char)
    } else {
        c
    }
}

/// The character sequence with every ASCII letter lower-cased.
pub open spec fn lower(s: Seq<char>) -> Seq<char> {
    s.map_values(|c: char| lower_char(c))
}

/// Lower-cases the ASCII letters of a character vector.
pub fn lower_chars(v: &Vec<char>) -> (r: Vec<char>)
    ensures
        r@ == lower(v@),
{
    let mut r: Vec<char> = Vec::new();
    let mut i: usize = 0;
    while i < v.len()
        invariant
            0 <= i <= v@.len(),
            r@ == lower(v@.subrange(0, i as int)),
        decreases v@.len() - i,
    {
        let c = v[i];
        if 'A' <= c && c <= 'Z' {
            r.push(((c as u8) + 32) as char);
        } else {
            r.push(c);
        }
        proof {
            assert(r@ =~= lower(v@.subrange(0, i + 1)));
        }
        i = i + 1;
    }
    proof {
        assert(v@.subrange(0, v@.len() as int) =~= v@);
    }
    r
}

/// An ASCII decimal digit.
pub open spec fn is_digit(c: char) -> bool {
    '0' <= c && c <= '9'
}

/// The numeric value of one decimal digit character.
pub open spec fn digit_val(c: char) -> nat {
    ((c as u32) - ('0' as u32)) as nat
}

/// Whether `s` begins with `prefix`.
pub open spec fn starts_with(s: Seq<char>, prefix: Seq<char>) -> bool {
    prefix.len() <= s.len() && s.subrange(0, prefix.len() as int) == prefix
}

/// Whether `s` ends with `suffix`.
pub open spec fn ends_with(s: Seq<char>, suffix: Seq<char>) -> bool {
    suffix.len() <= s.len() && s.subrange(s.len() - suffix.len(), s.len() as int) == suffix
}

/// Tests whether the vector ends with the characters of `suffix`.
pub fn chars_end_with(v: &Vec<char>, suffix: &str) -> (r: bool)
    ensures
        r == ends_with(v@, suffix@),
{
    let n = suffix.unicode_len();
    let len = v.len();
    if n > len {
        return false;
    }
    let base = len - n;
    let mut i: usize = 0;
    while i < n
        invariant
            0 <= i <= n == suffix@.len(),
            base == len - n,
            n <= len == v@.len(),
            forall|j: int| 0 <= j < i ==> v@[base + j] == suffix@[j],
        decreases n - i,
    {
        if v[base + i] != suffix.get_char(i) {
            assert(v@.subrange(base as int, len as int)[i as int] != suffix@[i as int]);
            return false;
        }
        i = i + 1;
    }
    proof {
        assert(v@.subrange(len - n, len as int) =~= suffix@);
    }
    true
}

/// Whether `sub` occurs contiguously anywhere in `s`.
pub open spec fn contains_sub(s: Seq<char>, sub: Seq<char>) -> bool {
    exists|i: int|
        0 <= i && i + sub.len() <= s.len() && #[trigger] s.subrange(i, i + sub.len() as int) == sub
}

/// Tests whether the vector begins with the characters of `prefix`.
pub fn chars_start_with(v: &Vec<char>, prefix: &str) -> (r: bool)
    ensures
        r == starts_with(v@, prefix@),
{
    let n = prefix.unicode_len();
    if n > v.len() {
        assert(!starts_with(v@, prefix@));
        return false;
    }
    let mut i: usize = 0;
    while i < n
        invariant
            0 <= i <= n == prefix@.len(),
            n <= v@.len(),
            forall|j: int| 0 <= j < i ==> v@[j] == prefix@[j],
        decreases n - i,
    {
        if v[i] != prefix.get_char(i) {
            assert(v@.subrange(0, n as int)[i as int] != prefix@[i as int]);
            return false;
        }
        i = i + 1;
    }
    proof {
        assert(v@.subrange(0, n as int) =~= prefix@);
    }
    true
}

/// Tests whether the characters of `sub` occur contiguously in the vector.
pub fn chars_contain(v: &Vec<char>, sub: &str) -> (r: bool)
    ensures
        r == contains_sub(v@, sub@),
{
    let m = sub.unicode_len();
    let n = v.len();
    if m > n {
        assert(!contains_sub(v@, sub@));
        return false;
    }
    let mut i: usize = 0;
    while i <= n - m
        invariant
            0 <= i <= n - m + 1,
            n == v@.len(),
            m == sub@.len() <= n,
            forall|k: int| 0 <= k < i ==> #[trigger] v@.subrange(k, k + m) != sub@,
        decreases n - i,
    {
        let mut j: usize = 0;
        while j < m && v[i + j] == sub.get_char(j)
            invariant
                0 <= j <= m == sub@.len(),
                0 <= i,
                i + m <= n == v@.len(),
                forall|k: int| 0 <= k < j ==> v@[i + k] == sub@[k],
            decreases m - j,
        {
            j = j + 1;
        }
        if j == m {
            proof {
                assert(v@.subrange(i as int, i + m) =~= sub@);
            }
            return true;
        }
        proof {
            assert(v@[i + j] != sub@[j as int]);
            if v@.subrange(i as int, i + m) == sub@ {
                assert(v@.subrange(i as int, i + m)[j as int] == sub@[j as int]);
            }
        }
        i = i + 1;
    }
    proof {
        if contains_sub(v@, sub@) {
            let k = choose|k: int|
                0 <= k && k + sub@.len() <= v@.len() && #[trigger] v@.subrange(
                    k,
                    k + sub@.len() as int,
                ) == sub@;
            assert(v@.subrange(k, k + m) == sub@);
        }
    }
    false
}

/// The decimal digits occurring in `s`, in order.
pub open spec fn digits_of(s: Seq<char>) -> Seq<char> {
    s.filter(|c: char| is_digit(c))
}

/// The numeric value of a digit string, most significant digit first.
pub open spec fn digits_value(s: Seq<char>) -> nat
    decreases s.len(),
{
    if s.len() == 0 {
        0
    } else {
        digits_value(s.drop_last()) * 10 + digit_val(s.last())
    }
}

/// The level encoded by the digits of a style name: the digits' value, or
/// `default` when the name holds no digit or the value does not fit `usize`.
pub open spec fn digits_or_default(s: Seq<char>, default: usize) -> usize {
    if digits_of(s).len() == 0 || digits_value(digits_of(s)) > usize::MAX {
        default
    } else {
        digits_value(digits_of(s)) as usize
    }
}

/// Extracts the digits of `v` and parses them, falling back to `default`
/// when there is no digit or the value overflows.
pub fn parse_digits_or(v: &Vec<char>, default: usize) -> (r: usize)
    ensures
        r == digits_or_default(v@, default),
{
    let mut acc: usize = 0;
    let mut any = false;
    let mut over = false;
    let mut i: usize = 0;
    proof {
        assert(v@.subrange(0, 0) =~= Seq::<char>::empty());
        assert(digits_of(v@.subrange(0, 0)) =~= Seq::<char>::empty());
    }
    while i < v.len()
        invariant
            0 <= i <= v@.len(),
            any <==> digits_of(v@.subrange(0, i as int)).len() > 0,
            !over ==> acc == digits_value(digits_of(v@.subrange(0, i as int))),
            over ==> digits_value(digits_of(v@.subrange(0, i as int))) > usize::MAX,
        decreases v@.len() - i,
    {
        let c = v[i];
        proof {
            assert(v@.subrange(0, i + 1).drop_last() =~= v@.subrange(0, i as int));
            reveal_with_fuel(Seq::filter, 2);
            assert(digits_of(v@.subrange(0, i + 1)) == if is_digit(c) {
                digits_of(v@.subrange(0, i as int)).push(c)
            } else {
                digits_of(v@.subrange(0, i as int))
            }) by {
                assert(v@.subrange(0, i + 1).drop_last() =~= v@.subrange(0, i as int));
                assert(v@.subrange(0, i + 1).last() == c);
            }
        }
        if '0' <= c && c <= '9' {
            assert(is_digit(c));
            any = true;
            let d: usize = ((c as u32) - ('0' as u32)) as usize;
            if !over {
                if acc <= (usize::MAX - d) / 10 {
                    proof {
                        assert(acc * 10 + d <= usize::MAX) by (nonlinear_arith)
                            requires
                                acc <= (usize::MAX - d) / 10,
                                0 <= d <= 9,
                        ;
                    }
                    acc = acc * 10 + d;
                } else {
                    proof {
                        assert(acc * 10 + d > usize::MAX) by (nonlinear_arith)
                            requires
                                acc > (usize::MAX - d) / 10,
                                0 <= d <= 9,
                        ;
                    }
                    over = true;
                }
            } else {
                proof {
                    let prev = digits_value(digits_of(v@.subrange(0, i as int)));
                    assert(prev * 10 + d > usize::MAX) by (nonlinear_arith)
                        requires
                            prev > usize::MAX,
                            0 <= d,
                    ;
                }
            }
            proof {
                let ds = digits_of(v@.subrange(0, i + 1));
                assert(ds.drop_last() =~= digits_of(v@.subrange(0, i as int)));
                assert(ds.last() == c);
            }
        } else {
            assert(!is_digit(c));
        }
        i = i + 1;
    }
    proof {
        assert(v@.subrange(0, v@.len() as int) =~= v@);
    }
    if !any || over {
        default
    } else {
        acc
    }
}

/// The decimal rendering of a natural number, without sign.
pub open spec fn dec_digits(n: nat) -> Seq<char>
    decreases n,
{
    if n < 10 {
        seq![(('0' as u32) + n as u32) as char]
    } else {
        dec_digits(n / 10).push((('0' as u32) + (n % 10) as u32) as char)
    }
}

/// The decimal rendering of a signed number: a minus sign for negatives,
/// then the digits of the magnitude.
pub open spec fn dec_int(n: int) -> Seq<char> {
    if n < 0 {
        seq!['-'] + dec_digits((-n) as nat)
    } else {
        dec_digits(n as nat)
    }
}

/// Renders an unsigned number in decimal.
pub fn u128_to_chars(n: u128) -> (r: Vec<char>)
    ensures
        r@ == dec_digits(n as nat),
{
    let mut rev: Vec<char> = Vec::new();
    let mut m = n;
    if m == 0 {
        let mut r: Vec<char> = Vec::new();
        r.push('0');
        proof {
            assert(dec_digits(0) =~= seq!['0']) by {
                assert((('0' as u32) + 0u32) as char == '0');
            }
            assert(r@ =~= dec_digits(0));
        }
        return r;
    }
    while m > 0
        invariant
            0 <= m <= n,
            m > 0 ==> dec_digits(n as nat) == dec_digits(m as nat) + rev@.reverse(),
            m == 0 ==> n > 0 && dec_digits(n as nat) == rev@.reverse(),
        decreases m,
    {
        let d = m % 10;
        let c = ((('0' as u32) + (d as u32)) as u8) as char;
        proof {
            let mm = m as nat;
            if mm >= 10 {
                assert(dec_digits(mm) == dec_digits(mm / 10).push(
                    (('0' as u32) + (mm % 10) as u32) as char,
                ));
            }
            assert(rev@.push(c).reverse() =~= seq![c] + rev@.reverse());
        }
        rev.push(c);
        m = m / 10;
        proof {
            let mm = (m * 10 + d) as nat;
            if mm < 10 {
                assert(dec_digits(mm) =~= seq![(('0' as u32) + mm as u32) as char]);
            }
        }
    }
    let mut r: Vec<char> = Vec::new();
    let mut i: usize = rev.len();
    while i > 0
        invariant
            0 <= i <= rev@.len(),
            r@ == rev@.subrange(i as int, rev@.len() as int).reverse(),
        decreases i,
    {
        i = i - 1;
        r.push(rev[i]);
        proof {
            assert(r@ =~= rev@.subrange(i as int, rev@.len() as int).reverse());
        }
    }
    proof {
        assert(rev@.subrange(0, rev@.len() as int) =~= rev@);
    }
    r
}

/// Renders a signed number in decimal.
pub fn i64_to_chars(n: i64) -> (r: Vec<char>)
    ensures
        r@ == dec_int(n as int),
{
    if n >= 0 {
        u128_to_chars(n as u128)
    } else {
        let mag: u128 = if n == i64::MIN {
            9223372036854775808u128
        } else {
            (-n) as u128
        };
        let digits = u128_to_chars(mag);
        let mut r: Vec<char> = Vec::new();
        r.push('-');
        let mut i: usize = 0;
        while i < digits.len()
            invariant
                0 <= i <= digits@.len(),
                r@ == seq!['-'] + digits@.subrange(0, i as int),
            decreases digits@.len() - i,
        {
            r.push(digits[i]);
            proof {
                assert(r@ =~= seq!['-'] + digits@.subrange(0, i + 1));
            }
            i = i + 1;
        }
        proof {
            assert(digits@.subrange(0, digits@.len() as int) =~= digits@);
            assert(r@ =~= dec_int(n as int));
        }
        r
    }
}

/// Collects the characters of a `str` into a vector.
pub fn chars_of_str(s: &str) -> (r: Vec<char>)
    ensures
        r@ == s@,
{
    let n = s.unicode_len();
    let mut r: Vec<char> = Vec::new();
    let mut i: usize = 0;
    while i < n
        invariant
            0 <= i <= n == s@.len(),
            r@ == s@.subrange(0, i as int),
        decreases n - i,
    {
        r.push(s.get_char(i));
        proof {
            assert(r@ =~= s@.subrange(0, i + 1));
        }
        i = i + 1;
    }
    proof {
        assert(s@.subrange(0, s@.len() as int) =~= s@);
    }
    r
}

/// Relies on `std::str::from_utf8`: succeeds exactly on well-formed UTF-8,
/// and the resulting string decodes those bytes.
#[verifier::external_body]
pub(crate) fn bytes_to_str(v: &Vec<u8>) -> (r: Option<&str>)
    ensures
        r is Some <==> vstd::utf8::valid_utf8(v@),
        r matches Some(s) ==> s@ == vstd::utf8::decode_utf8(v@),
{
    std::str::from_utf8(v.as_slice()).ok()
}

/// `parts` joined with `name` between consecutive parts.
pub open spec fn splice(parts: Seq<Seq<char>>, name: Seq<char>) -> Seq<char>
    decreases parts.len(),
{
    if parts.len() == 0 {
        Seq::empty()
    } else if parts.len() == 1 {
        parts[0]
    } else {
        parts[0] + name + splice(parts.drop_first(), name)
    }
}

/// Whether two texts are one list of segments with `n1` and `n2`
/// respectively spliced between the segments — structurally identical
/// except for the name.
pub open spec fn same_but_name(a: Seq<char>, b: Seq<char>, n1: Seq<char>, n2: Seq<char>) -> bool {
    exists|parts: Seq<Seq<char>>|
        parts.len() > 0 && a == #[trigger] splice(parts, n1) && b == splice(parts, n2)
}

/// Name-free text is the same under either name.
pub proof fn lemma_sbn_const(c: Seq<char>, n1: Seq<char>, n2: Seq<char>)
    ensures
        same_but_name(c, c, n1, n2),
{
    let parts = seq![c];
    assert(splice(parts, n1) == c);
    assert(splice(parts, n2) == c);
}

/// The names themselves differ exactly by the name.
pub proof fn lemma_sbn_name(n1: Seq<char>, n2: Seq<char>)
    ensures
        same_but_name(n1, n2, n1, n2),
{
    let parts = seq![Seq::<char>::empty(), Seq::<char>::empty()];
    assert(parts.drop_first() =~= seq![Seq::<char>::empty()]);
    assert(splice(parts.drop_first(), n1) == Seq::<char>::empty());
    assert(splice(parts.drop_first(), n2) == Seq::<char>::empty());
    assert(splice(parts, n1) == parts[0] + n1 + splice(parts.drop_first(), n1));
    assert(splice(parts, n2) == parts[0] + n2 + splice(parts.drop_first(), n2));
    assert(splice(parts, n1) =~= n1);
    assert(splice(parts, n2) =~= n2);
}

/// Two parts lists joined end to end: the last segment of the first fuses
/// with the first segment of the second.
pub open spec fn splice_merge(p1: Seq<Seq<char>>, p2: Seq<Seq<char>>) -> Seq<Seq<char>> {
    p1.take(p1.len() - 1) + seq![p1.last() + p2.first()] + p2.drop_first()
}

proof fn lemma_splice_concat(p1: Seq<Seq<char>>, p2: Seq<Seq<char>>, n: Seq<char>)
    requires
        p1.len() > 0,
        p2.len() > 0,
    ensures
        splice_merge(p1, p2).len() > 0,
        splice(splice_merge(p1, p2), n) == splice(p1, n) + splice(p2, n),
    decreases p1.len(),
{
    let m = splice_merge(p1, p2);
    if p1.len() == 1 {
        assert(m =~= seq![p1[0] + p2[0]] + p2.drop_first());
        if p2.len() == 1 {
            assert(m =~= seq![p1[0] + p2[0]]);
            assert(splice(m, n) =~= splice(p1, n) + splice(p2, n));
        } else {
            assert(m.len() == p2.len());
            assert(m[0] == p1[0] + p2[0]);
            assert(m.drop_first() =~= p2.drop_first());
            assert(splice(m, n) == m[0] + n + splice(m.drop_first(), n));
            assert(splice(p2, n) == p2[0] + n + splice(p2.drop_first(), n));
            assert(splice(m, n) =~= splice(p1, n) + splice(p2, n));
        }
    } else {
        lemma_splice_concat(p1.drop_first(), p2, n);
        assert(p1.take(p1.len() - 1)[0] == p1[0]);
        assert(m[0] == p1[0]);
        assert(m.len() > 1);
        assert(m.drop_first() =~= splice_merge(p1.drop_first(), p2)) by {
            assert(p1.drop_first().take(p1.drop_first().len() - 1) =~= p1.take(
                p1.len() - 1,
            ).drop_first());
            assert(p1.drop_first().last() == p1.last());
            assert(p1.drop_first().first() == p1[1]);
        }
        assert(splice(m, n) == m[0] + n + splice(m.drop_first(), n));
        assert(splice(p1, n) == p1[0] + n + splice(p1.drop_first(), n));
        assert(splice(m, n) =~= splice(p1, n) + splice(p2, n));
    }
}

/// Texts identical except the name stay so under concatenation.
pub proof fn lemma_sbn_concat(
    a1: Seq<char>,
    b1: Seq<char>,
    a2: Seq<char>,
    b2: Seq<char>,
    n1: Seq<char>,
    n2: Seq<char>,
)
    requires
        same_but_name(a1, b1, n1, n2),
        same_but_name(a2, b2, n1, n2),
    ensures
        same_but_name(a1 + a2, b1 + b2, n1, n2),
{
    let p1 = choose|p: Seq<Seq<char>>|
        p.len() > 0 && a1 == #[trigger] splice(p, n1) && b1 == splice(p, n2);
    let p2 = choose|p: Seq<Seq<char>>|
        p.len() > 0 && a2 == #[trigger] splice(p, n1) && b2 == splice(p, n2);
    lemma_splice_concat(p1, p2, n1);
    lemma_splice_concat(p1, p2, n2);
    assert(a1 + a2 == splice(splice_merge(p1, p2), n1));
    assert(b1 + b2 == splice(splice_merge(p1, p2), n2));
}

/// Copies a byte vector.
pub fn clone_bytes(v: &Vec<u8>) -> (r: Vec<u8>)
    ensures
        r@ == v@,
{
    let mut r: Vec<u8> = Vec::new();
    let mut i: usize = 0;
    while i < v.len()
        invariant
            0 <= i <= v@.len(),
            r@ == v@.subrange(0, i as int),
        decreases v@.len() - i,
    {
        r.push(v[i]);
        proof {
            assert(r@ =~= v@.subrange(0, i + 1));
        }
        i = i + 1;
    }
    proof {
        assert(v@.subrange(0, v@.len() as int) =~= v@);
    }
    r
}

/// Compares two string slices character by character.
pub fn str_eq(a: &str, b: &str) -> (r: bool)
    ensures
        r == (a@ == b@),
{
    let n = a.unicode_len();
    if n != b.unicode_len() {
        return false;
    }
    let mut i: usize = 0;
    while i < n
        invariant
            0 <= i <= n,
            n == a@.len() == b@.len(),
            forall|j: int| 0 <= j < i ==> a@[j] == b@[j],
        decreases n - i,
    {
        if a.get_char(i) != b.get_char(i) {
            return false;
        }
        i = i + 1;
    }
    proof {
        assert(a@ =~= b@);
    }
    true
}

/// Appends the characters of `s` to a character vector.
pub fn push_str_chars(v: &mut Vec<char>, s: &str)
    ensures
        final(v)@ == old(v)@ + s@,
{
    let n = s.unicode_len();
    let mut i: usize = 0;
    while i < n
        invariant
            0 <= i <= n == s@.len(),
            v@ == old(v)@ + s@.subrange(0, i as int),
        decreases n - i,
    {
        v.push(s.get_char(i));
        proof {
            assert(v@ =~= old(v)@ + s@.subrange(0, i + 1));
        }
        i = i + 1;
    }
    proof {
        assert(s@.subrange(0, s@.len() as int) =~= s@);
        assert(v@ =~= old(v)@ + s@);
    }
}

/// Relies on `String::push`: appends one character to the string.
#[verifier::external_body]
pub(crate) fn push_char(s: &mut String, c: char)
    ensures
        final(s)@ == old(s)@.push(c),
{
    s.push(c)
}

/// Builds a `String` from a character vector.
pub fn string_from_chars(v: &Vec<char>) -> (r: String)
    ensures
        r@ == v@,
{
    let mut r = String::new();
    let mut i: usize = 0;
    while i < v.len()
        invariant
            0 <= i <= v@.len(),
            r@ == v@.subrange(0, i as int),
        decreases v@.len() - i,
    {
        push_char(&mut r, v[i]);
        proof {
            assert(r@ =~= v@.subrange(0, i + 1));
        }
        i = i + 1;
    }
    proof {
        assert(v@.subrange(0, v@.len() as int) =~= v@);
    }
    r
}

} // verus!
